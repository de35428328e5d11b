use watchdiff::diff::{compute, DiffOp};
use watchdiff::feed::{on_notification, FeedEvent, FeedOutcome};
use watchdiff::lines::split_lines;
use watchdiff::store::VersionStore;

fn equal(l: &str) -> DiffOp<String> {
    DiffOp::Equal(l.to_string())
}

fn insert(l: &str) -> DiffOp<String> {
    DiffOp::Insert(l.to_string())
}

fn delete(l: &str) -> DiffOp<String> {
    DiffOp::Delete(l.to_string())
}

/// The script lines read from the old text (Equal and Delete), and the
/// lines written into the new text (Equal and Insert).
fn both_sides(ops: &[DiffOp<String>]) -> (Vec<String>, Vec<String>) {
    let mut source = Vec::new();
    let mut target = Vec::new();
    for op in ops {
        match op {
            DiffOp::Equal(l) => {
                source.push(l.clone());
                target.push(l.clone());
            }
            DiffOp::Delete(l) => source.push(l.clone()),
            DiffOp::Insert(l) => target.push(l.clone()),
        }
    }
    (source, target)
}

#[test]
fn split_drops_delimiter_and_trailing_newline() {
    assert_eq!(split_lines("a\nb\n"), vec!["a".to_string(), "b".to_string()]);
    assert_eq!(split_lines("a\nb"), vec!["a".to_string(), "b".to_string()]);
    assert_eq!(split_lines(""), Vec::<String>::new());
    assert_eq!(
        split_lines("a\n\nb"),
        vec!["a".to_string(), "".to_string(), "b".to_string()]
    );
}

#[test]
fn identity_diff_is_all_equal() {
    let script = compute("x\ny\n", "x\ny\n");
    assert_eq!(script.ops, vec![equal("x"), equal("y")]);
}

#[test]
fn empty_texts_give_empty_script() {
    let script = compute("", "");
    assert!(script.ops.is_empty());
}

#[test]
fn from_empty_everything_is_inserted() {
    let script = compute("", "a\nb\n");
    assert_eq!(script.ops, vec![insert("a"), insert("b")]);
}

#[test]
fn to_empty_everything_is_deleted() {
    let script = compute("a\nb\n", "");
    assert_eq!(script.ops, vec![delete("a"), delete("b")]);
}

#[test]
fn replacement_groups_deletes_before_inserts() {
    let script = compute("a\nb\nz\n", "c\nd\nz\n");
    assert_eq!(
        script.ops,
        vec![delete("a"), delete("b"), insert("c"), insert("d"), equal("z")]
    );
}

#[test]
fn replace_middle_line() {
    let script = compute("a\nb\nc\n", "a\nx\nc\n");
    assert_eq!(
        script.ops,
        vec![equal("a"), delete("b"), insert("x"), equal("c")]
    );
}

#[test]
fn round_trip_reconstructs_both_texts() {
    let pairs = [
        ("a\nb\nc\n", "a\nx\nc\n"),
        ("", "one\ntwo\n"),
        ("one\ntwo\n", ""),
        ("shared\nold tail\n", "new head\nshared\n"),
        ("a\nb\na\nb\n", "b\na\nb\na\n"),
        ("same\n", "same\n"),
    ];
    for (old_text, new_text) in pairs {
        let script = compute(old_text, new_text);
        let (source, target) = both_sides(&script.ops);
        assert_eq!(source, split_lines(old_text), "old side of {old_text:?} -> {new_text:?}");
        assert_eq!(target, split_lines(new_text), "new side of {old_text:?} -> {new_text:?}");
    }
}

#[test]
fn trailing_newline_is_invisible_to_the_line_diff() {
    // The store tells "a" and "a\n" apart byte-for-byte, but line-wise
    // they are the same single line, so the script keeps it unchanged.
    let script = compute("a", "a\n");
    assert_eq!(script.ops, vec![equal("a")]);
}

#[test]
fn identical_inputs_give_identical_scripts() {
    let a = compute("p\nq\n", "p\nr\ns\n");
    let b = compute("p\nq\n", "p\nr\ns\n");
    assert_eq!(a.ops, b.ops);
}

#[test]
fn signs_and_lines_of_operations() {
    assert_eq!(equal("x").sign(), ' ');
    assert_eq!(insert("x").sign(), '+');
    assert_eq!(delete("x").sign(), '-');
    assert_eq!(insert("text").line(), "text");
}

#[test]
fn appended_line_scenario() {
    // Seed, then one genuine change appending a third line.
    let mut s = VersionStore::new();
    s.record("line1\nline2\n".to_string(), 0);
    let r = on_notification(
        &mut s,
        FeedEvent::DataModified,
        Some("line1\nline2\nline3\n".to_string()),
        1,
    );
    assert_eq!(r, FeedOutcome::Recorded(1));
    assert_eq!(s.len(), 2);

    let current = s.current();
    let next = s.peek_next().expect("the new snapshot is the next one");
    assert_eq!(current.content, "line1\nline2\n");
    assert_eq!(next.content, "line1\nline2\nline3\n");

    let script = compute(&current.content, &next.content);
    assert_eq!(
        script.ops,
        vec![equal("line1"), equal("line2"), insert("line3")]
    );
}
