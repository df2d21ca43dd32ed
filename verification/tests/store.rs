use company_directory::directory::Company;
use company_directory::parser::parse_command;
use company_directory::parser::Command;

fn s(x: &str) -> String {
    String::from(x)
}

#[test]
fn scenario_add_then_list_all() {
    let mut c = Company::new();
    c.add_employee("Sally", "Engineering");
    c.add_employee("Amir", "Sales");
    let all = c.get_all_employees();
    assert_eq!(
        all,
        vec![
            (s("Engineering"), vec![s("Sally")]),
            (s("Sales"), vec![s("Amir")]),
        ]
    );
}

#[test]
fn scenario_department_sorted() {
    let mut c = Company::new();
    c.add_employee("Bob", "Sales");
    c.add_employee("Amy", "Sales");
    assert_eq!(c.get_employees("Sales"), Some(vec![s("Amy"), s("Bob")]));
}

#[test]
fn scenario_unknown_department() {
    let c = Company::new();
    assert_eq!(c.get_employees("Marketing"), None);
}

#[test]
fn scenario_bad_keyword() {
    match parse_command("Addx Sally Engineering") {
        Err(e) => assert_eq!(e, "Invalid command"),
        Ok(_) => panic!("parse should fail"),
    }
}

#[test]
fn scenario_empty_line() {
    match parse_command("") {
        Err(e) => assert_eq!(e, "Invalid command"),
        Ok(_) => panic!("parse should fail"),
    }
}

#[test]
fn scenario_duplicate_add() {
    let mut c = Company::new();
    c.add_employee("Sally", "Engineering");
    c.add_employee("Sally", "Engineering");
    assert_eq!(
        c.get_employees("Engineering"),
        Some(vec![s("Sally"), s("Sally")])
    );
}

#[test]
fn parse_add() {
    match parse_command("  Add   Sally  to Engineering \n") {
        Ok(Command::Add { name, department }) => {
            assert_eq!(name, "Sally");
            assert_eq!(department, "Engineering");
        }
        _ => panic!("expected an add command"),
    }
}

#[test]
fn parse_list_department() {
    match parse_command("List employees in Sales") {
        Ok(Command::ListDepartment { department }) => assert_eq!(department, "Sales"),
        _ => panic!("expected a department listing"),
    }
}

#[test]
fn parse_list_all() {
    assert!(matches!(parse_command("List all employees"), Ok(Command::ListAll)));
}

#[test]
fn parse_trims_unicode_whitespace() {
    match parse_command("\u{a0}Add Sally to Engineering") {
        Ok(Command::Add { name, department }) => {
            assert_eq!(name, "Sally");
            assert_eq!(department, "Engineering");
        }
        _ => panic!("expected an add command"),
    }
}

#[test]
fn parse_wrong_token_count() {
    assert!(parse_command("Add Sally to").is_err());
    assert!(parse_command("Add Sally to Engineering now").is_err());
    assert!(parse_command("List all employees today").is_err());
}

#[test]
fn listing_sorted_regardless_of_insertion_order() {
    let mut c = Company::new();
    c.add_employee("Zoe", "Ops");
    c.add_employee("Carl", "Ops");
    c.add_employee("Ann", "Ops");
    assert_eq!(c.get_employees("Ops"), Some(vec![s("Ann"), s("Carl"), s("Zoe")]));
}

#[test]
fn list_all_keys_sorted() {
    let mut c = Company::new();
    c.add_employee("Ann", "Zeta");
    c.add_employee("Bob", "Alpha");
    c.add_employee("Cid", "Mid");
    let all = c.get_all_employees();
    let keys: Vec<String> = all.iter().map(|p| p.0.clone()).collect();
    assert_eq!(keys, vec![s("Alpha"), s("Mid"), s("Zeta")]);
}

#[test]
fn round_trip_reproduces_pairs() {
    let mut c = Company::new();
    let pairs = [
        ("Sales", "Bob"),
        ("Engineering", "Amy"),
        ("Sales", "Amy"),
        ("Sales", "Bob"),
    ];
    for (d, n) in pairs {
        c.add_employee(n, d);
    }
    let all = c.get_all_employees();
    let mut flat: Vec<(String, String)> = Vec::new();
    for (d, names) in all {
        for n in names {
            flat.push((d.clone(), n));
        }
    }
    let mut expected: Vec<(String, String)> =
        pairs.iter().map(|(d, n)| (s(d), s(n))).collect();
    expected.sort();
    flat.sort();
    assert_eq!(flat, expected);
}

#[test]
fn store_unchanged_by_queries() {
    let mut c = Company::new();
    c.add_employee("Bob", "Sales");
    let before = c.get_all_employees();
    let _ = c.get_employees("Sales");
    let _ = c.get_employees("Nowhere");
    assert_eq!(c.get_all_employees(), before);
}
