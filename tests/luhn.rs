use std::collections::HashSet;

use luhnr::{
    generate, generate_str, generate_with_prefix, generate_with_prefix_str, validate,
    validate_str, LuhnError,
};

#[test]
fn test_generate_length() {
    assert_eq!(generate(16).unwrap().len(), 16)
}

#[test]
fn test_generate_long() {
    assert_eq!(generate(2000000).unwrap().len(), 2000000)
}

#[test]
fn test_generate_prefix_length() {
    let prefix = vec![0, 1];
    assert_eq!(generate_with_prefix(16, &prefix).unwrap().len(), 16)
}

#[test]
fn test_generate_prefix() {
    let prefix = vec![0, 1];
    let result = generate_with_prefix(16, &prefix).unwrap();
    assert_eq!(result[..2], prefix)
}

#[test]
fn test_generate_prefix_str() {
    let prefix = "01";
    let result = generate_with_prefix_str(16, prefix).unwrap();
    assert_eq!(&result[..2], prefix)
}

#[test]
fn test_generate_invalid_length() {
    let prefix = vec![0, 1];
    match generate_with_prefix(1, &prefix) {
        Err(error) => assert_eq!(error, LuhnError::InvalidLength),
        Ok(_) => panic!("failed to catch empty length"),
    }
}

#[test]
fn test_generate_invalid_prefix() {
    let prefix = vec![20, 10];
    match generate_with_prefix(10, &prefix) {
        Err(error) => assert_eq!(error, LuhnError::InvalidPrefix),
        Ok(_) => panic!("failed to catch prefix error"),
    }
}

#[test]
fn test_generate() {
    let prefix = vec![0, 1, 8, 9, 9, 5, 3, 6, 6, 4, 5, 7, 1, 5, 3];
    let result = [prefix.clone(), vec![9]].concat();
    match generate_with_prefix(16, &prefix) {
        Ok(v) => assert_eq!(result, v),
        Err(_) => panic!("unexpected err result"),
    }
}

#[test]
fn test_generate_str() {
    let result = generate_str(16).unwrap();
    let numbers = result
        .chars()
        .map(|x| x.to_digit(10).unwrap() as u8)
        .collect::<Vec<u8>>();

    assert!(validate(&numbers))
}

#[test]
fn test_validate_true() {
    let number = vec![0, 1, 8, 9, 9, 5, 3, 6, 6, 4, 5, 7, 1, 5, 3, 9];
    assert!(validate(&number))
}

#[test]
fn test_validate_str_true() {
    let number = "0189953664571539";
    assert!(validate_str(number))
}

#[test]
fn test_validate_false() {
    let number = vec![0, 1, 8, 9, 9, 5, 3, 6, 6, 4, 5, 7, 1, 5, 3, 5];
    assert!(!validate(&number))
}

#[test]
fn test_validate_str_false() {
    let number = "0189953664571535";
    assert!(!validate_str(number))
}

#[test]
fn test_validate_empty() {
    let number = vec![];
    assert!(!validate(&number))
}

#[test]
fn test_validate_short_true() {
    let number = vec![0];
    assert!(validate(&number))
}

#[test]
fn test_validate_short_false() {
    let number = vec![2];
    assert!(!validate(&number))
}

#[test]
fn test_validate_visa_test() {
    let number = vec![4, 2, 4, 2, 4, 2, 4, 2, 4, 2, 4, 2, 4, 2, 4, 2];
    assert!(validate(&number))
}

#[test]
fn test_generate_validate() {
    (0..100).for_each(|_| {
        let number = generate(16).unwrap();
        assert!(validate(&number))
    })
}

#[test]
fn test_all_numbers_0_to_9() {
    let mut num_check: HashSet<u8> = HashSet::new();
    let number = generate(200).unwrap();

    for num in number {
        num_check.insert(num);
    }

    for i in 0..10 {
        assert!(num_check.contains(&i), "missing {} from generate", i);
    }
}
