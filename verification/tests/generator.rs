use pwdeck::generator::{Diceware, GenerationMethod, Generator, Random, DICEWARE_LINES};

fn test_wordlist() -> Vec<String> {
    let mut lines = Vec::new();
    for i in 0..DICEWARE_LINES {
        lines.push(format!("word{}", i));
    }
    lines
}

#[test]
fn five_words() {
    let diceware_words = 5;
    let lines = test_wordlist();
    let diceware_password = Diceware::new(String::from("res/diceware_wordlist.txt"), diceware_words)
        .generate(&lines)
        .unwrap();

    println!("{}", diceware_password);
    assert_eq!(
        diceware_password.split(" ").collect::<Vec<_>>().len(),
        diceware_words
    );
}

#[test]
fn long_random() {
    let length = 40;
    let random_password = Random::new(length).generate().unwrap();

    println!("{}", random_password);
    assert_eq!(random_password.len(), length);
}

#[test]
fn short_random() {
    let length = 10;
    let random_password = Random::new(length).generate().unwrap();

    println!("{}", random_password);
    assert_eq!(random_password.len(), length)
}

#[test]
fn random_chars_from_allowed_classes() {
    let specials = [
        '!', '#', '$', '%', '&', '*', '+', '-', '_', '.', '/', ':', '=', '?', '~', '`',
    ];
    let password = Random::new(200).generate().unwrap();
    assert_eq!(password.chars().count(), 200);
    for c in password.chars() {
        let allowed = c.is_ascii_lowercase()
            || c.is_ascii_uppercase()
            || c.is_ascii_digit()
            || specials.contains(&c);
        assert!(allowed, "character {:?} outside the allowed classes", c);
    }
    let mut distinct: Vec<char> = Vec::new();
    for c in password.chars() {
        if !distinct.contains(&c) {
            distinct.push(c);
        }
    }
    assert!(distinct.len() > 1, "200 random draws never repeat a single character");
}

#[test]
fn diceware_words_come_from_the_list() {
    let lines = test_wordlist();
    let password = Diceware::new(String::from("wordlist.txt"), 8)
        .generate(&lines)
        .unwrap();
    let tokens: Vec<&str> = password.split(' ').collect();
    assert_eq!(tokens.len(), 8);
    for token in tokens {
        assert!(lines.iter().any(|l| l.as_str() == token), "token {:?} not in the wordlist", token);
    }
}

#[test]
fn diceware_rejects_short_wordlist() {
    let lines: Vec<String> = (0..100).map(|i| format!("w{}", i)).collect();
    let result = Diceware::new(String::from("short.txt"), 5).generate(&lines);
    assert!(result.is_err());
}

#[test]
fn generator_dispatches_random() {
    let generator = Generator::new(GenerationMethod::Random(12));
    let empty: Vec<String> = Vec::new();
    let password = generator.generate(&empty).unwrap();
    assert_eq!(password.len(), 12);
}

#[test]
fn generator_dispatches_diceware() {
    let lines = test_wordlist();
    let generator = Generator::from(GenerationMethod::Diceware(
        String::from("wordlist.txt"),
        3,
    ));
    let password = generator.password(&lines).unwrap();
    assert_eq!(password.expose().split(' ').count(), 3);
}
