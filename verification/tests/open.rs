use codeai::commands::open::{
    excerpt_byte_lens, line_excerpt, parse_range_arg, plan_batch, stale_symbol_outcome, StaleOutcome,
};
use codeai::store::BlockRow;

#[test]
fn range_arguments_read() {
    assert_eq!(parse_range_arg("src/main.rs:10:0-25:0").unwrap(), ("src/main.rs".to_string(), (10, 25)));
    assert_eq!(parse_range_arg("C:/x/y.rs:3:1-4:2").unwrap(), ("C:/x/y.rs".to_string(), (3, 4)));
    assert_eq!(parse_range_arg("a.rs:7-x").unwrap(), ("a.rs".to_string(), (7, 7)));
    assert_eq!(parse_range_arg("a.rs:7:0-").unwrap(), ("a.rs".to_string(), (7, 7)));
    assert_eq!(parse_range_arg("a.rs:-9").unwrap(), ("a.rs".to_string(), (0, 9)));
    assert_eq!(parse_range_arg("a.rs:x:0-9:0").unwrap(), ("a.rs:x".to_string(), (0, 9)));
    assert_eq!(parse_range_arg("a.rs:3-5").unwrap(), ("a.rs".to_string(), (3, 5)));
    assert_eq!(parse_range_arg("C:/x.rs:3-5").unwrap(), ("C:/x.rs".to_string(), (3, 5)));
    assert_eq!(parse_range_arg("src/f2:1-3").unwrap(), ("src/f2".to_string(), (1, 3)));
    assert_eq!(parse_range_arg("src/f2:1:0-3:0").unwrap(), ("src/f2".to_string(), (1, 3)));
    assert_eq!(parse_range_arg("my-dir/a-b.rs:5:2-6:0").unwrap(), ("my-dir/a-b.rs".to_string(), (5, 6)));
    assert_eq!(parse_range_arg(":1:0-2:0").unwrap_err(), "Cannot parse range: :1:0-2:0");
    assert_eq!(parse_range_arg("12:0-13:0").unwrap_err(), "Cannot parse range: 12:0-13:0");
    assert_eq!(parse_range_arg("a.rs:12").unwrap_err(), "Cannot parse range: a.rs:12");
}

#[test]
fn excerpts_take_lines() {
    let text = "l0\nl1\r\nl2\nl3\n";
    assert_eq!(line_excerpt(text, 1, 3, 80).as_deref(), Some("l1\nl2"));
    assert_eq!(line_excerpt(text, 1, 100, 2).as_deref(), Some("l1\nl2"));
    assert_eq!(line_excerpt(text, 3, 9, 80).as_deref(), Some("l3"));
    assert_eq!(line_excerpt(text, 4, 9, 80), None);
    assert_eq!(line_excerpt(text, 2, 2, 80).as_deref(), Some(""));
}

#[test]
fn batches_stay_within_budget() {
    let plan = plan_batch(&[Some(10), None, Some(5), Some(8), Some(1)], 16);
    assert_eq!(plan.included, vec![0, 2, 4]);
    assert_eq!(plan.remaining, vec![1, 3]);
    assert_eq!(plan.byte_count, 16);
    let empty = plan_batch(&[Some(3)], 2);
    assert!(empty.included.is_empty());
    assert_eq!(empty.byte_count, 0);
}

#[test]
fn excerpt_lengths_are_utf8_bytes() {
    let lens = excerpt_byte_lens(&[Some("héllo".to_string()), None, Some(String::new())]);
    assert_eq!(lens, vec![Some(6), None, Some(0)]);
}

const VALIDATE_GO: &str = r#"package payment

// ValidatePayment checks if a payment request is valid.
// It returns an error if validation fails.
func ValidatePayment(amount int, currency string) error {
    if amount <= 0 {
        return fmt.Errorf("payment validation failed: invalid amount %d", amount)
    }
    if currency == "" {
        return fmt.Errorf("payment validation failed: missing currency")
    }
    return nil
}

// ProcessPayment executes the payment after validation.
func ProcessPayment(id string, amount int) error {
    err := ValidatePayment(amount, "USD")
    if err != nil {
        return err
    }
    return nil
}
"#;

#[test]
fn test_open_range() {
    let (path, (start_line, end_line)) = parse_range_arg("services/payment/validate.go:4:0-12:0").unwrap();
    assert_eq!(path, "services/payment/validate.go");
    assert_eq!((start_line, end_line), (4, 12));
    let content = line_excerpt(VALIDATE_GO, start_line, end_line + 1, usize::MAX).unwrap();
    assert!(content.contains("ValidatePayment"), "range should capture function body");
}

fn candidate(id: &str) -> BlockRow {
    BlockRow {
        symbol_id: id.to_string(),
        path: "a.go".to_string(),
        language: "go".to_string(),
        kind: "function".to_string(),
        name: "Pay".to_string(),
        start_line: 0,
        start_col: 0,
        end_line: 1,
        end_col: 0,
        signature: None,
        doc: None,
        preview: String::new(),
    }
}

#[test]
fn stale_ids_fall_back_to_candidates() {
    match stale_symbol_outcome("no-hashes", &[]) {
        StaleOutcome::NotFound { message, query } => {
            assert_eq!(message, "symbol_id 'no-hashes' not found and cannot be parsed");
            assert_eq!(query, "no-hashes");
        }
        other => panic!("unexpected {other:?}"),
    }
    match stale_symbol_outcome("a.go#function#Pay", &[]) {
        StaleOutcome::NotFound { message, query } => {
            assert_eq!(message, "symbol_id 'a.go#function#Pay' not found in current index");
            assert_eq!(query, "Pay");
        }
        other => panic!("unexpected {other:?}"),
    }
    match stale_symbol_outcome("a.go#function#Pay", &[candidate("a.go#function#Pay#1")]) {
        StaleOutcome::Resolved { index, from, to } => {
            assert_eq!(index, 0);
            assert_eq!(from, "a.go#function#Pay");
            assert_eq!(to, "a.go#function#Pay#1");
        }
        other => panic!("unexpected {other:?}"),
    }
    let two = [candidate("a.go#function#Pay#0"), candidate("a.go#function#Pay#1")];
    match stale_symbol_outcome("a.go#function#Pay", &two) {
        StaleOutcome::Ambiguous { message, ids } => {
            assert_eq!(message, "Multiple candidates for 'a.go#function#Pay'");
            assert_eq!(ids, vec!["a.go#function#Pay#0".to_string(), "a.go#function#Pay#1".to_string()]);
        }
        other => panic!("unexpected {other:?}"),
    }
}
