use text_diff::{Builder, Op, OpInfo, Text, TextDiff};

fn text(s: &str) -> Text {
    Text::from_chars(s.chars().collect())
}

fn string_of(t: &Text) -> String {
    t.clone().into_chars().into_iter().collect()
}

/// Applies a diff to a string the way a text buffer would: retains copy,
/// deletes skip, inserts add, and the uncovered tail is kept.
fn apply_diff(d: &TextDiff, s: &str) -> String {
    let chars: Vec<char> = s.chars().collect();
    let mut out = String::new();
    let mut pos = 0usize;
    let mut iter = d.iter();
    while let Some(op) = iter.next() {
        match op {
            Op::Retain(n) => {
                out.extend(&chars[pos..pos + n]);
                pos += n;
            }
            Op::Delete(n) => {
                pos += n;
            }
            Op::Insert(t) => {
                out.push_str(&string_of(t));
            }
        }
    }
    out.extend(&chars[pos..]);
    out
}

fn ops_of(d: &TextDiff) -> Vec<OpInfo> {
    let mut out = Vec::new();
    let mut iter = d.iter();
    while let Some(op) = iter.next() {
        out.push(op.info());
    }
    out
}

#[test]
fn empty_diff_is_empty() {
    let d = TextDiff::new();
    assert!(d.is_empty());
    assert_eq!(d.len(), 0);
    assert_eq!(apply_diff(&d, "hello"), "hello");
}

#[test]
fn builder_builds_in_order() {
    let mut b = Builder::new();
    b.retain(2);
    b.delete(1);
    b.insert(text("x"));
    let d = b.finish();
    assert_eq!(
        ops_of(&d),
        vec![OpInfo::Retain(2), OpInfo::Delete(1), OpInfo::Insert(1)]
    );
    assert_eq!(apply_diff(&d, "abc"), "abx");
}

#[test]
fn builder_merges_adjacent_same_kind() {
    let mut b = Builder::new();
    b.retain(2);
    b.retain(3);
    b.delete(1);
    b.delete(2);
    b.insert(text("ab"));
    b.insert(text("cd"));
    let d = b.finish();
    assert_eq!(
        ops_of(&d),
        vec![OpInfo::Retain(5), OpInfo::Delete(3), OpInfo::Insert(4)]
    );
}

#[test]
fn builder_drops_noops() {
    let mut b = Builder::new();
    b.retain(0);
    b.delete(0);
    b.insert(text(""));
    b.retain(1);
    b.delete(2);
    let d = b.finish();
    assert_eq!(ops_of(&d), vec![OpInfo::Retain(1), OpInfo::Delete(2)]);
}

#[test]
fn builder_trims_trailing_retain() {
    let mut b = Builder::new();
    b.delete(1);
    b.retain(4);
    let d = b.finish();
    assert_eq!(ops_of(&d), vec![OpInfo::Delete(1)]);

    let mut only_retain = Builder::new();
    only_retain.retain(7);
    assert!(only_retain.finish().is_empty());
}

#[test]
fn builder_orders_delete_before_insert() {
    // Recording insert then delete at one position yields the same diff
    // as delete then insert.
    let mut b1 = Builder::new();
    b1.retain(2);
    b1.insert(text("x"));
    b1.delete(1);
    let d1 = b1.finish();

    let mut b2 = Builder::new();
    b2.retain(2);
    b2.delete(1);
    b2.insert(text("x"));
    let d2 = b2.finish();

    assert_eq!(d1, d2);
    assert_eq!(
        ops_of(&d1),
        vec![OpInfo::Retain(2), OpInfo::Delete(1), OpInfo::Insert(1)]
    );
}

#[test]
fn builder_merges_delete_through_buffered_insert() {
    let mut b = Builder::new();
    b.delete(1);
    b.insert(text("ab"));
    b.delete(2);
    let d = b.finish();
    assert_eq!(ops_of(&d), vec![OpInfo::Delete(3), OpInfo::Insert(2)]);
    assert_eq!(apply_diff(&d, "xyz"), "ab");
}

#[test]
fn op_info_projects_lengths() {
    assert_eq!(Op::Retain(4).info(), OpInfo::Retain(4));
    assert_eq!(Op::Delete(2).info(), OpInfo::Delete(2));
    assert_eq!(Op::Insert(text("abc")).info(), OpInfo::Insert(3));
}

#[test]
fn iter_restarts_and_into_iter_consumes() {
    let mut b = Builder::new();
    b.retain(1);
    b.insert(text("z"));
    let d = b.finish();

    assert_eq!(ops_of(&d), vec![OpInfo::Retain(1), OpInfo::Insert(1)]);
    // A second pass over the same diff sees the same operations.
    assert_eq!(ops_of(&d), vec![OpInfo::Retain(1), OpInfo::Insert(1)]);

    let mut into = d.into_iter();
    assert_eq!(into.next(), Some(Op::Retain(1)));
    assert_eq!(into.next(), Some(Op::Insert(text("z"))));
    assert_eq!(into.next(), None);
}

#[test]
fn text_take_skip_append() {
    let mut t = text("hello");
    assert_eq!(t.len(), 5);
    assert!(!t.is_empty());
    let prefix = t.take(2);
    assert_eq!(string_of(&prefix), "he");
    assert_eq!(string_of(&t), "llo");
    t.skip(1);
    assert_eq!(string_of(&t), "lo");
    let mut u = text("ab");
    u.append(t);
    assert_eq!(string_of(&u), "ablo");
    assert!(text("").is_empty());
}

#[test]
fn apply_accounts_for_lengths() {
    // The diff consumes retain + delete lengths of the input and produces
    // retain + insert lengths, plus the untouched tail.
    let mut b = Builder::new();
    b.retain(2);
    b.delete(3);
    b.insert(text("XY"));
    let d = b.finish();
    let out = apply_diff(&d, "abcdefg");
    assert_eq!(out, "abXYfg");
    assert_eq!(out.len(), 7 - (2 + 3) + (2 + 2) + ("abcdefg".len() - 7));
}

#[test]
fn compose_with_empty_is_identity() {
    let mut b = Builder::new();
    b.retain(2);
    b.delete(1);
    b.insert(text("x"));
    let d = b.finish();

    let left = TextDiff::new().compose(d.clone());
    assert_eq!(left, d);

    let right = d.clone().compose(TextDiff::new());
    assert_eq!(right, d);
}

#[test]
fn compose_associates_on_a_chain() {
    // A: "abcd" -> "abXY", B: "abXY" -> "bXY", C: "bXY" -> "bZXY".
    let mut ba = Builder::new();
    ba.retain(2);
    ba.insert(text("XY"));
    ba.delete(2);
    let a = ba.finish();
    let mut bb = Builder::new();
    bb.delete(1);
    bb.retain(3);
    let b = bb.finish();
    let mut bc = Builder::new();
    bc.retain(1);
    bc.insert(text("Z"));
    let c = bc.finish();

    assert_eq!(apply_diff(&a, "abcd"), "abXY");
    assert_eq!(apply_diff(&b, "abXY"), "bXY");
    assert_eq!(apply_diff(&c, "bXY"), "bZXY");

    let left = a.clone().compose(b.clone()).compose(c.clone());
    let right = a.compose(b.compose(c));
    assert_eq!(left, right);
    assert_eq!(apply_diff(&left, "abcd"), "bZXY");
}

#[test]
fn compose_cancels_inserted_then_deleted_text() {
    // A = [Retain(5), Insert("abc")], B = [Retain(5), Delete(3)]: the
    // inserted text is deleted again, so the composition keeps the first
    // five characters — and a pure retain is trimmed to the empty diff.
    let mut ba = Builder::new();
    ba.retain(5);
    ba.insert(text("abc"));
    let a = ba.finish();
    let mut bb = Builder::new();
    bb.retain(5);
    bb.delete(3);
    let b = bb.finish();

    let c = a.compose(b);
    assert!(c.is_empty());
    assert_eq!(apply_diff(&c, "hello"), "hello");
}

#[test]
fn compose_passes_through_pure_retain() {
    // A = [Retain(2), Delete(1), Insert("x")], B = [Retain(3)]: B changes
    // nothing, so the composition is A.
    let mut ba = Builder::new();
    ba.retain(2);
    ba.delete(1);
    ba.insert(text("x"));
    let a = ba.finish();
    let mut bb = Builder::new();
    bb.retain(3);
    let b = bb.finish();

    let c = a.clone().compose(b);
    assert_eq!(c, a);
}

#[test]
fn compose_splits_partly_deleted_insert() {
    // A = [Insert("hello")] on an empty source, B = [Retain(2), Delete(3)]:
    // only the first two inserted characters survive.
    let mut ba = Builder::new();
    ba.insert(text("hello"));
    let a = ba.finish();
    let mut bb = Builder::new();
    bb.retain(2);
    bb.delete(3);
    let b = bb.finish();

    let c = a.compose(b);
    assert_eq!(ops_of(&c), vec![OpInfo::Insert(2)]);
    assert_eq!(apply_diff(&c, ""), "he");
}

#[test]
fn compose_splits_operations_on_both_sides() {
    // Overlapping spans of unequal lengths are split correctly.
    let mut ba = Builder::new();
    ba.retain(4);
    ba.delete(2);
    let a = ba.finish();
    let mut bb = Builder::new();
    bb.retain(1);
    bb.delete(2);
    bb.insert(text("Q"));
    let b = bb.finish();

    let c = a.clone().compose(b.clone());
    let source = "abcdefgh";
    let intermediate = apply_diff(&a, source);
    assert_eq!(intermediate, "abcdgh");
    let target = apply_diff(&b, &intermediate);
    assert_eq!(target, "aQdgh");
    assert_eq!(apply_diff(&c, source), target);
}

#[test]
fn lengths_count_scalar_code_points() {
    // Operation lengths count characters, not bytes.
    let mut b = Builder::new();
    b.retain(1);
    b.delete(1);
    b.insert(text("ß"));
    let d = b.finish();
    assert_eq!(apply_diff(&d, "héllo"), "hßllo");

    let mut ba = Builder::new();
    ba.insert(text("déjà"));
    let a = ba.finish();
    let mut bb = Builder::new();
    bb.retain(2);
    bb.delete(2);
    let bd = bb.finish();
    let c = a.compose(bd);
    assert_eq!(apply_diff(&c, ""), "dé");
}

#[test]
fn compose_insert_preempts_delete() {
    // An insert pending in the second diff goes out before a delete
    // pending in the first: the insert lands ahead of the deleted span.
    let mut ba = Builder::new();
    ba.delete(2);
    let a = ba.finish();
    let mut bb = Builder::new();
    bb.insert(text("N"));
    let b = bb.finish();

    let c = a.compose(b);
    assert_eq!(ops_of(&c), vec![OpInfo::Delete(2), OpInfo::Insert(1)]);
    assert_eq!(apply_diff(&c, "xyz"), "Nz");
}
