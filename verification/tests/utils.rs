use company_directory::arith::add;
use company_directory::arith::generate_nth_fibonacci;
use company_directory::arith::panic_add;
use company_directory::arith::subtract;
use company_directory::articles::largest_item;
use company_directory::articles::longest;
use company_directory::articles::some_function;
use company_directory::articles::some_function1;
use company_directory::articles::NewsArticle;
use company_directory::articles::Pair;
use company_directory::articles::Summary;
use company_directory::articles::Tweet;
use company_directory::grep::search;
use company_directory::grep::search_case_insensitive;
use company_directory::grep::Config;
use company_directory::guess::evaluate_guess;
use company_directory::guess::new_game;
use company_directory::pig_latin::pig_latin;
use company_directory::restaurant::Breakfast;
use company_directory::stats::median_and_mode;
use std::cmp::Ordering;

#[test]
fn test_add() {
    assert_eq!(add(2, 3), 5);
}

#[test]
fn test_subtract() {
    assert_eq!(subtract(5, 3), 2);
}

#[test]
fn test_panic_add() {
    assert_eq!(panic_add(40, 60), 100);
}

#[test]
fn fibonacci_values() {
    assert_eq!(generate_nth_fibonacci(0), 0);
    assert_eq!(generate_nth_fibonacci(1), 1);
    assert_eq!(generate_nth_fibonacci(5), 5);
    assert_eq!(generate_nth_fibonacci(10), 55);
}

#[test]
fn case_sensitive() {
    let query = "duct";
    let contents = "\
Rust:
Safe, Fast, Productive.
Pick Three.
Duct Tape.
";
    assert_eq!(vec!["Safe, Fast, Productive."], search(query, contents))
}

#[test]
fn case_insensitive() {
    let query = "rUsT";
    let contents = "\
Rust:
Safe, Fast, Productive.
Pick Three.
Trust me.
";
    assert_eq!(
        vec!["Rust:", "Trust me."],
        search_case_insensitive(query, contents)
    )
}

#[test]
fn config_needs_three_arguments() {
    let args = vec![String::from("prog")];
    assert_eq!(Config::new(&args, false).err(), Some("Not enough arguments"));
    let args = vec![
        String::from("prog"),
        String::from("duct"),
        String::from("notes.txt"),
    ];
    let cfg = Config::new(&args, true).unwrap();
    assert_eq!(cfg.query, "duct");
    assert_eq!(cfg.filename, "notes.txt");
    assert!(cfg.case_insensitive);
}

#[test]
fn longest_picks_longer() {
    assert_eq!(longest("abcd", "xy"), "abcd");
    assert_eq!(longest("xy", "abcd"), "abcd");
    assert_eq!(longest("ab", "xy"), "xy");
}

#[test]
fn summaries() {
    let a = NewsArticle::new("Big News", "Paris", "Ann", "text");
    assert_eq!(a.summarize(), "Big News, by Ann (Paris)");
    let t = Tweet::new("ann", "hello", false, false);
    assert_eq!(t.summarize(), "ann: hello");
}

#[test]
fn pair_builds() {
    let _p = Pair::new(1, 2);
    let _q = Pair::new("a", "b");
}

#[test]
fn breakfast_summer() {
    let b = Breakfast::summer("Rye");
    assert_eq!(b.toast, "Rye");
}

#[test]
fn guessing() {
    assert_eq!(evaluate_guess(3, 5), Ordering::Less);
    assert_eq!(evaluate_guess(7, 5), Ordering::Greater);
    assert_eq!(evaluate_guess(5, 5), Ordering::Equal);
    let secret = new_game();
    assert!((1..=10).contains(&secret));
}

#[test]
fn median_and_mode_examples() {
    let v = vec![1, 2, 3, 4, 5, 5, 5];
    assert_eq!(median_and_mode(&v), (Some(4), Some(5)));
    let empty: Vec<i32> = Vec::new();
    assert_eq!(median_and_mode(&empty), (None, None));
    let even = vec![10, 2, 8, 4];
    let (median, mode) = median_and_mode(&even);
    assert_eq!(median, Some((4 + 8) / 2));
    assert!(even.contains(&mode.unwrap()));
    let (median, mode) = median_and_mode(&vec![2, 1]);
    assert_eq!(median, Some(1));
    assert!(vec![2, 1].contains(&mode.unwrap()));
}

#[test]
fn integration_test() {
    assert_eq!(add(2, 2), 4, "Integration test passed");
}

#[test]
fn longest_uses_byte_length() {
    assert_eq!(longest("\u{e9}\u{e9}", "abc"), "\u{e9}\u{e9}");
}

#[test]
fn pig_latin_words() {
    assert_eq!(pig_latin("apple"), "apple-hay");
    assert_eq!(pig_latin("first"), "irst-fay");
    assert_eq!(pig_latin(""), "");
    assert_eq!(pig_latin("   "), "");
    assert_eq!(pig_latin(" first second under"), "irst-fay econd-say under-hay");
    assert_eq!(pig_latin("apple pie"), "apple-hay ie-pay");
}

#[test]
fn largest_item_examples() {
    let nums = vec![34, 50, 25, 100, 65];
    assert_eq!(*largest_item(&nums), 100);
    let strs = vec!["one", "two", "three", "four", "five"];
    assert_eq!(*largest_item(&strs), "two");
}

#[test]
fn bound_demos() {
    assert_eq!(some_function::<i32, u8>(7), 7);
    assert_eq!(some_function1("x"), 1);
}
