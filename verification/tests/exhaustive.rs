use kmemsnoop::kexpr::{Action, Evaluator, Event};
use kmemsnoop::ksym::{KSymResolver, KSYM_DATA, KSYM_FUNC};
use kmemsnoop::lexer::{Lexer, Token};
use kmemsnoop::render::{decimal, push_hex_padded, push_hex_prefixed};
use kmemsnoop::utils::{get_online_cpus, hexstr2int, uname_version};

/// Every string over `alphabet` of at most `max` characters.
fn strings(alphabet: &[char], max: usize) -> Vec<String> {
    let mut all = vec![String::new()];
    let mut last = vec![String::new()];
    for _ in 0..max {
        let mut next = Vec::new();
        for s in &last {
            for c in alphabet {
                let mut t = s.clone();
                t.push(*c);
                next.push(t);
            }
        }
        all.extend(next.iter().cloned());
        last = next;
    }
    all
}

/// The tokens of `expr`, cut by hand: `None` where a `-` is not followed by `>`.
fn cut(expr: &str) -> Option<Vec<Token>> {
    let chars: Vec<char> = expr.chars().collect();
    let mut tokens = Vec::new();
    let mut i = 0;
    while i < chars.len() {
        match chars[i] {
            '.' => {
                tokens.push(Token::Access);
                i += 1;
            }
            '*' => {
                tokens.push(Token::Valof);
                i += 1;
            }
            '-' => {
                if chars.get(i + 1) != Some(&'>') {
                    return None;
                }
                tokens.push(Token::Deref);
                i += 2;
            }
            _ => {
                let rest: String = chars[i..].iter().collect();
                let name: String = rest
                    .split(|c| c == '.' || c == '-')
                    .next()
                    .unwrap()
                    .to_string();
                i += name.chars().count();
                tokens.push(Token::Member(name));
            }
        }
    }
    Some(tokens)
}

#[test]
fn lexer_agrees_with_cutting_by_hand() {
    for expr in strings(&['a', 'b', '.', '-', '>', '*'], 6) {
        let mut lexer = Lexer::new(expr.clone());
        let mut tokens = Vec::new();
        while let Some(token) = lexer.next_token() {
            tokens.push(token);
        }
        match cut(&expr) {
            Some(expected) => {
                assert_eq!(tokens, expected, "tokens of {:?}", expr);
                assert!(lexer.at_end(), "end of {:?}", expr);
            }
            None => assert!(!lexer.at_end(), "error in {:?}", expr),
        }
    }
}

/// A chain of objects: object `n` has the pointer member `a` and the plain
/// member `b`, both leading to object `n + 1`; objects from 5 on have no
/// members. The value of object `n` is `100 + n`, its address `200 + n`.
fn lookup(object: u64, name: &str, pointer: bool) -> Option<u64> {
    if object >= 5 {
        return None;
    }
    match (name, pointer) {
        ("a", true) | ("b", false) => Some(object + 1),
        _ => None,
    }
}

/// The result that the grammar gives `expr` on the chain.
fn by_grammar(expr: &str) -> Option<u64> {
    let tokens = cut(expr)?;
    let mut rest = tokens.as_slice();
    let value_of = matches!(rest.first(), Some(Token::Valof));
    if value_of {
        rest = &rest[1..];
    }
    let mut object = match rest.first() {
        Some(Token::Member(name)) => lookup(0, name, true)?,
        _ => return None,
    };
    rest = &rest[1..];
    while !rest.is_empty() {
        if rest.len() < 2 {
            return None;
        }
        object = match (&rest[0], &rest[1]) {
            (Token::Access, Token::Member(name)) => lookup(object, name, false)?,
            (Token::Deref, Token::Member(name)) => lookup(object, name, true)?,
            _ => return None,
        };
        rest = &rest[2..];
    }
    Some(if value_of { 100 + object } else { 200 + object })
}

/// The result that the evaluator gives `expr` when its requests are
/// answered from the chain. An address is the object `1000 + n`.
fn by_evaluator(expr: &str) -> Option<u64> {
    let mut evaluator = Evaluator::new(expr.to_string());
    let mut object = 0u64;
    let mut event = Event::Start;
    for _ in 0..100 {
        event = match evaluator.step(event) {
            Action::DerefMember(name) => match lookup(object, &name, true) {
                Some(next) => {
                    object = next;
                    Event::Found
                }
                None => Event::Missing,
            },
            Action::Member(name) => match lookup(object, &name, false) {
                Some(next) => {
                    object = next;
                    Event::Found
                }
                None => Event::Missing,
            },
            Action::AddressOf => {
                object += 1000;
                Event::Found
            }
            Action::ToNumber => Event::Number(if object >= 1000 {
                object - 1000 + 200
            } else {
                object + 100
            }),
            Action::Done(result) => return result,
        };
    }
    panic!("the evaluation of {:?} did not end", expr);
}

#[test]
fn evaluator_agrees_with_the_grammar() {
    let mut with_result = 0;
    for expr in strings(&['a', 'b', '.', '-', '>', '*'], 7) {
        let expected = by_grammar(&expr);
        assert_eq!(by_evaluator(&expr), expected, "result of {:?}", expr);
        if expected.is_some() {
            with_result += 1;
        }
    }
    assert_eq!(with_result, 14);
    assert_eq!(by_evaluator("a"), Some(201));
    assert_eq!(by_evaluator("*a.b->a"), Some(103));
}

#[test]
fn numbers_are_written_as_the_standard_library_writes_them() {
    let mut values = vec![0u64, 1, 9, 10, 15, 16, 99, 100, 255, 256, u64::MAX, u64::MAX - 1];
    for shift in 0..64 {
        values.push(1u64 << shift);
        values.push((1u64 << shift) - 1);
        values.push((1u64 << shift) + 1);
        values.push(0x123456789abcdef0u64 >> shift);
    }
    for v in values {
        assert_eq!(decimal(v), format!("{}", v));
        let mut s = String::new();
        push_hex_prefixed(&mut s, v);
        assert_eq!(s, format!("{:#x}", v));
        for width in [0usize, 1, 2, 3, 10, 16, 18, 19, 30] {
            let mut s = String::new();
            push_hex_padded(&mut s, v, width);
            assert_eq!(s, format!("{:#0width$x}", v, width = width));
        }
    }
}

#[test]
fn numbers_are_read_as_the_standard_library_reads_them() {
    let digits = ['0', '1', '9', 'a', 'F', 'g', 'x', '+', ' '];
    for s in strings(&digits, 4) {
        let expected = if s.starts_with('+') {
            None
        } else {
            usize::from_str_radix(&s, 16).ok()
        };
        if !s.starts_with("0x") {
            assert_eq!(hexstr2int(&s), expected, "reading {:?}", s);
        }
        let prefixed = format!("0x{}", s);
        assert_eq!(hexstr2int(&prefixed), expected, "reading {:?}", prefixed);
    }
}

/// The CPU list expanded by the rules of the list, with the standard
/// library's number parser.
fn expand_by_hand(list: &str) -> Option<Vec<i32>> {
    let list = list.trim_matches(|c: char| c.is_ascii_whitespace() || c == '\x0b');
    let number = |s: &str| -> Option<i32> {
        if s.starts_with('+') || s.starts_with('-') {
            None
        } else {
            s.parse::<i32>().ok()
        }
    };
    let mut cpus = Vec::new();
    for item in list.split(',') {
        match item.find('-') {
            Some(pos) => {
                let first = number(&item[..pos])?;
                let last = number(&item[pos + 1..])?;
                cpus.extend(first..=last);
            }
            None => cpus.push(number(item)?),
        }
    }
    Some(cpus)
}

#[test]
fn cpu_lists_are_expanded_by_the_rules_of_the_list() {
    for list in strings(&['0', '1', '7', ',', '-', ' ', '\n'], 6) {
        assert_eq!(
            get_online_cpus(&list),
            expand_by_hand(&list),
            "expanding {:?}",
            list
        );
    }
}

#[test]
fn versions_are_read_from_all_short_strings() {
    for release in strings(&['0', '6', '1', '.', '-', 'r'], 5) {
        let expected = (|| {
            let (major, rest) = release.split_once('.')?;
            let minor: String = rest.chars().take_while(|c| c.is_ascii_digit()).collect();
            if major.is_empty() || !major.chars().all(|c| c.is_ascii_digit()) {
                return None;
            }
            Some((major.parse::<u32>().ok()?, minor.parse::<u32>().ok()?))
        })();
        assert_eq!(uname_version(&release), expected, "reading {:?}", release);
    }
}

/// The first symbol of each kind and name, found by going through the list.
fn find_by_hand(text: &str, name: &str, func: bool) -> Option<usize> {
    for line in text.split('\n') {
        let fields: Vec<&str> = line.split_ascii_whitespace().collect();
        if fields.len() < 3 {
            return None;
        }
        let addr = usize::from_str_radix(fields[0], 16).ok();
        if fields[0].starts_with('+') || addr.is_none() {
            return None;
        }
        let is_func = fields[1] == "t" || fields[1] == "T";
        if addr != Some(0) && fields[2] == name && is_func == func {
            return addr;
        }
    }
    None
}

#[test]
fn symbols_are_found_as_by_going_through_the_list() {
    let lines = [
        "10 T a", "11 t a", "12 D a", "13 T b", "0 T c", "14 d c", "15 T c x y", "\t16  W   ab ",
        "17 T", "zz T d", "18 tt b", "", "19 T d",
    ];
    let names = ["a", "b", "c", "d", "ab", "x", ""];
    let mut seed = 12345u32;
    for _ in 0..300 {
        let mut text = String::new();
        let count = 1 + (seed >> 8) % 10;
        for _ in 0..count {
            seed = seed.wrapping_mul(1664525).wrapping_add(1013904223);
            text.push_str(lines[(seed >> 16) as usize % lines.len()]);
            text.push('\n');
        }
        let table = KSymResolver::new(text.as_bytes());
        for name in names {
            assert_eq!(
                table.find_ksym(name, KSYM_FUNC),
                find_by_hand(&text, name, true),
                "function {:?} in {:?}",
                name,
                text
            );
            assert_eq!(
                table.find_ksym(name, KSYM_DATA),
                find_by_hand(&text, name, false),
                "data {:?} in {:?}",
                name,
                text
            );
        }
    }
}
