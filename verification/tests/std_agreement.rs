use chat::request::{parse_field, parse_method, parse_path, read_raw_request, split_text, HttpMethod};
use chat::text::{position_of, position_of_text, trim};

fn words(alphabet: &[char], longest: usize) -> Vec<String> {
    let mut all = vec![String::new()];
    let mut last = vec![String::new()];
    for _ in 0..longest {
        let mut next = Vec::new();
        for word in &last {
            for c in alphabet {
                let mut longer = word.clone();
                longer.push(*c);
                next.push(longer);
            }
        }
        all.extend(next.iter().cloned());
        last = next;
    }
    all
}

fn method_by_std(text: &str) -> HttpMethod {
    match text.lines().next() {
        Some(line) => match line.split(' ').next() {
            Some("GET") => HttpMethod::Get,
            Some("POST") => HttpMethod::Post,
            _ => HttpMethod::Unrecognized,
        },
        None => HttpMethod::Unrecognized,
    }
}

fn path_by_std(text: &str) -> Option<String> {
    text.lines()
        .next()
        .and_then(|line| line.split(' ').nth(1))
        .map(|path| path.to_string())
}

#[test]
fn request_line_agrees_with_lines_and_split() {
    for word in words(&['G', 'E', 'T', ' ', '/', '\r', '\n'], 5) {
        let text: Vec<char> = word.chars().collect();
        assert_eq!(parse_method(&text), method_by_std(&word), "{:?}", word);
        assert_eq!(parse_path(&text), path_by_std(&word), "{:?}", word);
    }
    for tail in words(&[' ', '/', 'a', '\r', '\n'], 4) {
        for head in ["GET", "POST", "GET /", "POST /a"] {
            let word = format!("{}{}", head, tail);
            let text: Vec<char> = word.chars().collect();
            assert_eq!(parse_method(&text), method_by_std(&word), "{:?}", word);
            assert_eq!(parse_path(&text), path_by_std(&word), "{:?}", word);
        }
    }
}

#[test]
fn split_agrees_with_str_split() {
    for word in words(&['a', '&', '=', '\u{e9}'], 6) {
        let text: Vec<char> = word.chars().collect();
        let parts: Vec<String> = split_text(&text, '&')
            .iter()
            .map(|part| part.iter().collect())
            .collect();
        let expected: Vec<String> = word.split('&').map(|part| part.to_string()).collect();
        assert_eq!(parts, expected, "{:?}", word);
    }
}

#[test]
fn field_agrees_with_splitting_at_equals_signs() {
    for word in words(&['a', 'b', '=', '%'], 6) {
        let text: Vec<char> = word.chars().collect();
        let halves: Vec<&str> = word.split('=').collect();
        let expected = if halves.len() == 2 {
            Some((halves[0].to_string(), halves[1].to_string()))
        } else {
            None
        };
        assert_eq!(parse_field(&text), expected, "{:?}", word);
    }
}

#[test]
fn trim_agrees_with_str_trim() {
    for word in words(&['a', ' ', '\n', '\u{a0}', '\u{200b}', '\0'], 5) {
        assert_eq!(trim(&word), word.trim(), "{:?}", word);
    }
}

#[test]
fn padding_is_stripped_as_trim_matches_does() {
    for word in words(&['a', ' ', '\0', '\u{e9}'], 6) {
        let mut buffer = word.as_bytes().to_vec();
        buffer.resize(word.len() + 3, 0);
        let expected: Vec<char> = word.trim_matches('\0').chars().collect();
        assert_eq!(read_raw_request(&buffer, word.len()), Ok(expected), "{:?}", word);
    }
}

#[test]
fn positions_agree_with_find() {
    for word in words(&['a', 'b', '\r', '\n'], 6) {
        let text: Vec<char> = word.chars().collect();
        assert_eq!(position_of(&text, 'b'), word.find('b').unwrap_or(word.len()));
        for pattern in ["\r\n\r\n", "ab", "a", "\r\n"] {
            let letters: Vec<char> = pattern.chars().collect();
            assert_eq!(
                position_of_text(&text, &letters),
                word.find(pattern).unwrap_or(word.len()),
                "{:?} in {:?}",
                pattern,
                word
            );
        }
    }
}
