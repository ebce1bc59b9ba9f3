use dpscript::def_meta::{
    merge_def_meta, AllowFlag, BuiltinInfo, DefMeta, DslMarker, EnforceType, Repr, Require, Restrict,
};
use dpscript::lexer::Error;
use dpscript::span::SourceSpan;
use dpscript::value::{Literal, LiteralValue};

fn meta_at(start: usize, end: usize) -> DefMeta<'static> {
    let mut m = DefMeta::default();
    m.span = SourceSpan { start, end };
    m
}

fn duplicate_kind(r: Result<(), Error>) -> &'static str {
    match r {
        Err(Error::DuplicateMeta { kind, .. }) => kind,
        other => panic!("unexpected result: {:?}", other),
    }
}

#[test]
fn merging_takes_over_what_is_set() {
    let mut a = meta_at(10, 20);
    a.inline = true;
    let mut b = meta_at(0, 5);
    b.hint = Some(("a hint", SourceSpan { start: 1, end: 4 }));
    b.allow = vec![AllowFlag::Incomplete];
    b.repr = Repr::Object;
    b.dsl = Some(DslMarker::At);
    assert!(merge_def_meta(&mut a, b).is_ok());
    assert!(a.inline);
    assert_eq!(a.hint.map(|h| h.0), Some("a hint"));
    assert_eq!(a.allow, vec![AllowFlag::Incomplete]);
    assert_eq!(a.repr, Repr::Object);
    assert_eq!(a.dsl, Some(DslMarker::At));
    // The earlier-starting span's start to the later-starting span's end.
    assert_eq!(a.span, SourceSpan { start: 0, end: 20 });
}

#[test]
fn an_attribute_given_twice_fails() {
    let mut a = meta_at(0, 5);
    a.builtin = Some(BuiltinInfo::Generic);
    let mut b = meta_at(6, 9);
    b.builtin = Some(BuiltinInfo::Cast);
    match merge_def_meta(&mut a, b) {
        Err(Error::DuplicateMeta { kind, span }) => {
            assert_eq!(kind, "builtin");
            assert_eq!(span, SourceSpan { start: 6, end: 9 });
        }
        other => panic!("unexpected result: {:?}", other),
    }
    assert!(matches!(a.builtin, Some(BuiltinInfo::Generic)));
    assert_eq!(a.span, SourceSpan { start: 0, end: 5 });
}

#[test]
fn each_kind_is_named() {
    let mut a = meta_at(0, 1);
    a.nullable = true;
    let mut b = meta_at(0, 1);
    b.nullable = true;
    assert_eq!(duplicate_kind(merge_def_meta(&mut a, b)), "nullable");

    let mut a = meta_at(0, 1);
    a.repr = Repr::Array;
    let mut b = meta_at(0, 1);
    b.repr = Repr::Byte;
    assert_eq!(duplicate_kind(merge_def_meta(&mut a, b)), "repr");

    let mut a = meta_at(0, 1);
    a.hint_id = Some((("h", SourceSpan { start: 0, end: 1 }), ("x", SourceSpan { start: 2, end: 3 })));
    let mut b = meta_at(0, 1);
    b.hint_id = Some((("h", SourceSpan { start: 0, end: 1 }), ("y", SourceSpan { start: 2, end: 3 })));
    assert_eq!(duplicate_kind(merge_def_meta(&mut a, b)), "hint_id");
}

#[test]
fn repeated_list_items_fail_after_the_earlier_ones() {
    let mut a = meta_at(0, 1);
    a.enforce = vec![EnforceType::Clone];
    let mut b = meta_at(0, 1);
    b.inline = true;
    b.enforce = vec![EnforceType::Clone];
    assert_eq!(duplicate_kind(merge_def_meta(&mut a, b)), "enforce");
    // What came before the failing attribute stays merged.
    assert!(a.inline);

    let mut a = meta_at(0, 1);
    let sp = SourceSpan { start: 0, end: 1 };
    let one = Literal { value: LiteralValue::Int(1), span: sp };
    let text = Literal { value: LiteralValue::String("s"), span: sp };
    let two = Literal { value: LiteralValue::Int(2), span: sp };
    a.restrict = vec![Restrict::Values(vec![one, text])];
    let mut b = meta_at(0, 1);
    b.restrict = vec![Restrict::Values(vec![two]), Restrict::Values(vec![one, text])];
    assert_eq!(duplicate_kind(merge_def_meta(&mut a, b)), "restrict");
    assert_eq!(a.restrict.len(), 2);

    let mut a = meta_at(0, 1);
    a.require = vec![Require::Store];
    let mut b = meta_at(0, 1);
    b.require = vec![Require::OneOf(vec![("x", SourceSpan { start: 0, end: 1 })])];
    assert!(merge_def_meta(&mut a, b).is_ok());
    assert_eq!(a.require.len(), 2);
}

#[test]
fn empty_metadata_merges_without_change() {
    let mut a = meta_at(3, 4);
    a.this = true;
    assert!(merge_def_meta(&mut a, meta_at(3, 8)).is_ok());
    assert!(a.this);
    assert_eq!(a.span, SourceSpan { start: 3, end: 8 });
}
