use knit::process_tree::{descendants, parse_process_table, parse_u32, split_words};

fn chars(s: &str) -> Vec<char> {
    s.chars().collect()
}

#[test]
fn words_and_numbers() {
    let w = split_words(&chars("  12 \t 1  x\r"));
    assert_eq!(w, vec![chars("12"), chars("1"), chars("x")]);
    assert_eq!(parse_u32(&chars("4294967295")), Some(u32::MAX));
    assert_eq!(parse_u32(&chars("4294967296")), None);
    assert_eq!(parse_u32(&chars("+7")), Some(7));
    assert_eq!(parse_u32(&chars("+")), None);
    assert_eq!(parse_u32(&chars("")), None);
    assert_eq!(parse_u32(&chars("-1")), None);
    assert_eq!(parse_u32(&chars("1a")), None);
}

#[test]
fn process_table_rows() {
    let rows = parse_process_table("  100     1\n  200   100\nbad line\n  300   100\n 400 200 extra\n\n");
    assert_eq!(rows, vec![(100, 1), (200, 100), (300, 100), (400, 200)]);
}

#[test]
fn descendants_walk_depth_first() {
    let rows = vec![(100, 1), (200, 100), (300, 100), (400, 200), (500, 300), (600, 7)];
    assert_eq!(descendants(&rows, 100), vec![200, 300, 500, 400]);
    assert_eq!(descendants(&rows, 600), Vec::<u32>::new());
    assert_eq!(descendants(&rows, 7), vec![600]);
}
