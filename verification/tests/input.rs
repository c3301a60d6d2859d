use sorting_visualizer::algorithms::Sorter;
use sorting_visualizer::types::State;
use sorting_visualizer::ui::input::{chars_of, is_whitespace, parse_chars, parse_csv, parse_field, parse_numbers};
use sorting_visualizer::ui::Visualizer;

fn by_std(text: &str) -> Vec<usize> {
    text.split(',').filter_map(|s| s.trim().parse::<usize>().ok()).collect()
}

fn by_std_lines(text: &str) -> Vec<usize> {
    text.lines()
        .flat_map(|line| line.split(','))
        .filter_map(|s| s.trim().parse::<usize>().ok())
        .collect()
}

#[test]
fn numbers_between_commas() {
    assert_eq!(parse_numbers("1,2,3"), vec![1, 2, 3]);
    assert_eq!(parse_numbers(" 10 ,\t20,30\n"), vec![10, 20, 30]);
    assert_eq!(parse_numbers(""), Vec::<usize>::new());
    assert_eq!(parse_numbers(","), Vec::<usize>::new());
    assert_eq!(parse_numbers("7"), vec![7]);
    assert_eq!(parse_numbers("7,"), vec![7]);
    assert_eq!(parse_numbers(",7"), vec![7]);
    assert_eq!(parse_numbers("007, +8, 0"), vec![7, 8, 0]);
}

#[test]
fn fields_that_are_no_numbers_are_passed_over() {
    assert_eq!(parse_numbers("1,x,3"), vec![1, 3]);
    assert_eq!(parse_numbers("1,,3"), vec![1, 3]);
    assert_eq!(parse_numbers("1, ,3"), vec![1, 3]);
    assert_eq!(parse_numbers("-1,2"), vec![2]);
    assert_eq!(parse_numbers("+,2"), vec![2]);
    assert_eq!(parse_numbers("++1,2"), vec![2]);
    assert_eq!(parse_numbers("1 2,3"), vec![3]);
    assert_eq!(parse_numbers("1.5,3"), vec![3]);
    assert_eq!(parse_numbers("1_000,3"), vec![3]);
    assert_eq!(parse_numbers("0x10,3"), vec![3]);
    assert_eq!(parse_numbers("+ 1,3"), vec![3]);
    assert_eq!(parse_numbers("1\n2,3"), vec![3]);
    assert_eq!(parse_numbers("٣,3"), vec![3]);
}

#[test]
fn numbers_up_to_the_largest_are_read() {
    let largest = usize::MAX.to_string();
    assert_eq!(parse_numbers(&largest), vec![usize::MAX]);
    assert_eq!(parse_numbers(&format!("000{},1", largest)), vec![usize::MAX, 1]);
    let mut over = largest.clone();
    over.push('0');
    assert_eq!(parse_numbers(&format!("{},1", over)), vec![1]);
    let digits: Vec<char> = largest.chars().collect();
    let mut next = digits.clone();
    let last = next.len() - 1;
    next[last] = char::from_digit(digits[last].to_digit(10).unwrap() + 1, 10).unwrap();
    let next: String = next.into_iter().collect();
    assert_eq!(parse_numbers(&format!("1,{}", next)), vec![1]);
    assert_eq!(parse_numbers("99999999999999999999999999999999999999,5"), vec![5]);
}

#[test]
fn white_space_is_what_unicode_says() {
    for code in 0..0x3100u32 {
        if let Some(c) = char::from_u32(code) {
            assert_eq!(is_whitespace(c), c.is_whitespace(), "U+{:04X}", code);
        }
    }
    assert!(!is_whitespace('\u{FEFF}'));
    assert!(!is_whitespace('\u{10FFFF}'));
    assert_eq!(parse_numbers("\u{3000}12\u{2009},\u{A0}5\u{85}"), vec![12, 5]);
    assert_eq!(parse_numbers("\u{200B}12,5"), vec![5]);
}

#[test]
fn numbers_line_by_line() {
    assert_eq!(parse_csv("1,2\n3,4\n"), vec![1, 2, 3, 4]);
    assert_eq!(parse_csv("1,2\r\n3,4\r\n"), vec![1, 2, 3, 4]);
    assert_eq!(parse_csv("1\n\n2\n x \n3"), vec![1, 2, 3]);
    assert_eq!(parse_csv(""), Vec::<usize>::new());
    assert_eq!(parse_csv("\n"), Vec::<usize>::new());
    assert_eq!(parse_csv("5"), vec![5]);
}

#[test]
fn parsing_agrees_with_the_standard_library() {
    let alphabet: Vec<char> = "0123456789,,,  \n\r\t+-x\u{A0}".chars().collect();
    let mut state: u64 = 12345;
    for round in 0..3000 {
        let len = round % 24;
        let mut text = String::new();
        for _ in 0..len {
            state = state.wrapping_mul(6364136223846793005).wrapping_add(1442695040888963407);
            text.push(alphabet[((state >> 33) as usize) % alphabet.len()]);
        }
        assert_eq!(parse_numbers(&text), by_std(&text), "{:?}", text);
        assert_eq!(parse_csv(&text), by_std_lines(&text), "{:?}", text);
    }
}

#[test]
fn characters_and_fields() {
    assert_eq!(chars_of("a,é"), vec!['a', ',', 'é']);
    assert_eq!(chars_of(""), Vec::<char>::new());
    let chars = chars_of(" 12 ,x");
    assert_eq!(parse_field(&chars, 0, 4), Some(12));
    assert_eq!(parse_field(&chars, 1, 3), Some(12));
    assert_eq!(parse_field(&chars, 1, 2), Some(1));
    assert_eq!(parse_field(&chars, 0, 1), None);
    assert_eq!(parse_field(&chars, 2, 2), None);
    assert_eq!(parse_field(&chars, 5, 6), None);
    assert_eq!(parse_field(&chars, 0, 6), None);
    assert_eq!(parse_chars(&chars, false), vec![12]);
    assert_eq!(parse_chars(&chars_of("1\n2"), false), Vec::<usize>::new());
    assert_eq!(parse_chars(&chars_of("1\n2"), true), vec![1, 2]);
}

#[test]
fn a_session_takes_numbers_from_text() {
    let mut app = Visualizer::new(vec![3, 2, 1]);
    app.start();
    app.handle_running();
    assert!(!app.process_user_input("a, b"));
    assert!(!app.process_user_input(""));
    assert_eq!(app.numbers(), &vec![2, 3, 1]);
    assert_eq!(app.state(), State::Running);
    assert!(app.process_user_input("9, 8,7"));
    assert_eq!(app.numbers(), &vec![9, 8, 7]);
    assert_eq!(app.original_numbers(), &vec![9, 8, 7]);
    assert_eq!(app.state(), State::Start);
    assert_eq!(app.sorter().comparisons(), 0);
    assert!(app.load_numbers_from_file("4,5\n6"));
    assert_eq!(app.numbers(), &vec![4]);
    assert!(app.load_numbers_from_csv("4,5\n6"));
    assert_eq!(app.numbers(), &vec![4, 5, 6]);
    assert!(!app.load_numbers_from_csv("\n\n"));
    assert_eq!(app.original_numbers(), &vec![4, 5, 6]);
}
