//! The metadata attributes (`#[...]`) written before a definition, and how several of them
//! are merged into one, refusing an attribute given twice.
use vstd::prelude::*;
use crate::lexer::{Error, ErrorV};
use crate::span::SourceSpan;
use crate::tast::{trees_view, Token, TreeV};
use crate::text::str_eq;
use crate::value::{literal_value_eq, Literal, LiteralValueV};

verus! {

/// A type written in an attribute, kept as the token trees it was written with.
#[derive(Debug)]
pub struct TypeRef<'a> {
    pub tokens: Vec<(Token<'a>, SourceSpan)>,
}

impl<'a> View for TypeRef<'a> {
    type V = Seq<(TreeV, SourceSpan)>;

    open spec fn view(&self) -> Seq<(TreeV, SourceSpan)> {
        trees_view(self.tokens@)
    }
}

/// What `#[builtin]` says of a definition.
#[derive(Debug)]
pub enum BuiltinInfo<'a> {
    Generic,
    Cast,
    ConvertTo(TypeRef<'a>),
}

pub enum BuiltinV {
    Generic,
    Cast,
    ConvertTo(Seq<(TreeV, SourceSpan)>),
}

impl<'a> View for BuiltinInfo<'a> {
    type V = BuiltinV;

    open spec fn view(&self) -> BuiltinV {
        match self {
            BuiltinInfo::Generic => BuiltinV::Generic,
            BuiltinInfo::Cast => BuiltinV::Cast,
            BuiltinInfo::ConvertTo(t) => BuiltinV::ConvertTo(t@),
        }
    }
}

/// What `#[allow(...)]` allows.
#[derive(Clone, Copy, Debug, PartialEq, Eq, Structural)]
pub enum AllowFlag {
    Incomplete,
}

/// What `#[restrict(...)]` restricts a value to.
#[derive(Debug)]
pub enum Restrict<'a> {
    Values(Vec<Literal<'a>>),
}

pub enum RestrictV {
    Values(Seq<(LiteralValueV, SourceSpan)>),
}

impl<'a> View for Restrict<'a> {
    type V = RestrictV;

    open spec fn view(&self) -> RestrictV {
        match self {
            Restrict::Values(v) => RestrictV::Values(v@.map_values(|l: Literal<'a>| l@)),
        }
    }
}

/// What `#[require(...)]` requires.
#[derive(Debug)]
pub enum Require<'a> {
    OneOf(Vec<(&'a str, SourceSpan)>),
    Store,
}

pub enum RequireV {
    OneOf(Seq<(Seq<char>, SourceSpan)>),
    Store,
}

impl<'a> View for Require<'a> {
    type V = RequireV;

    open spec fn view(&self) -> RequireV {
        match self {
            Require::OneOf(v) => RequireV::OneOf(v@.map_values(|x: (&'a str, SourceSpan)| (x.0@, x.1))),
            Require::Store => RequireV::Store,
        }
    }
}

/// The prefix of a domain-specific literal.
#[derive(Clone, Copy, Debug, PartialEq, Eq, Structural)]
pub enum DslMarker {
    Hash,
    At,
}

/// What `#[enforce(...)]` enforces.
#[derive(Clone, Copy, Debug, PartialEq, Eq, Structural)]
pub enum EnforceType {
    Clone,
}

/// How a value is represented.
#[derive(Clone, Copy, Debug, PartialEq, Eq, Structural)]
pub enum Repr {
    Default,
    Object,
    Array,
    String,
    Byte,
}

/// The metadata of a definition, gathered from its attributes.
#[derive(Debug)]
pub struct DefMeta<'a> {
    pub builtin: Option<BuiltinInfo<'a>>,
    pub inline: bool,
    pub allow: Vec<AllowFlag>,
    pub nullable: bool,
    pub hint: Option<(&'a str, SourceSpan)>,
    pub restrict: Vec<Restrict<'a>>,
    pub require: Vec<Require<'a>>,
    pub dsl: Option<DslMarker>,
    pub cmd: Option<(&'a str, SourceSpan)>,
    pub since: Option<(&'a str, SourceSpan)>,
    pub name: Option<(&'a str, SourceSpan)>,
    pub this: bool,
    pub enforce: Vec<EnforceType>,
    pub repr: Repr,
    pub same_as: Vec<TypeRef<'a>>,
    pub limit: Option<(Literal<'a>, Literal<'a>)>,
    pub raw_json: bool,
    pub hint_id: Option<((&'a str, SourceSpan), (&'a str, SourceSpan))>,
    pub span: SourceSpan,
}

/// The value of a piece of metadata.
pub struct DefMetaV {
    pub builtin: Option<BuiltinV>,
    pub inline: bool,
    pub allow: Seq<AllowFlag>,
    pub nullable: bool,
    pub hint: Option<(Seq<char>, SourceSpan)>,
    pub restrict: Seq<RestrictV>,
    pub require: Seq<RequireV>,
    pub dsl: Option<DslMarker>,
    pub cmd: Option<(Seq<char>, SourceSpan)>,
    pub since: Option<(Seq<char>, SourceSpan)>,
    pub name: Option<(Seq<char>, SourceSpan)>,
    pub this: bool,
    pub enforce: Seq<EnforceType>,
    pub repr: Repr,
    pub same_as: Seq<Seq<(TreeV, SourceSpan)>>,
    pub limit: Option<((LiteralValueV, SourceSpan), (LiteralValueV, SourceSpan))>,
    pub raw_json: bool,
    pub hint_id: Option<((Seq<char>, SourceSpan), (Seq<char>, SourceSpan))>,
    pub span: SourceSpan,
}

pub open spec fn text_view<'a>(o: Option<(&'a str, SourceSpan)>) -> Option<(Seq<char>, SourceSpan)> {
    match o {
        Some((s, sp)) => Some((s@, sp)),
        None => None,
    }
}

pub open spec fn restricts_view<'a>(s: Seq<Restrict<'a>>) -> Seq<RestrictV> {
    s.map_values(|r: Restrict<'a>| r@)
}

pub open spec fn requires_view<'a>(s: Seq<Require<'a>>) -> Seq<RequireV> {
    s.map_values(|r: Require<'a>| r@)
}

pub open spec fn types_view<'a>(s: Seq<TypeRef<'a>>) -> Seq<Seq<(TreeV, SourceSpan)>> {
    s.map_values(|t: TypeRef<'a>| t@)
}

impl<'a> View for DefMeta<'a> {
    type V = DefMetaV;

    open spec fn view(&self) -> DefMetaV {
        DefMetaV {
            builtin: match self.builtin {
                Some(b) => Some(b@),
                None => None,
            },
            inline: self.inline,
            allow: self.allow@,
            nullable: self.nullable,
            hint: text_view(self.hint),
            restrict: restricts_view(self.restrict@),
            require: requires_view(self.require@),
            dsl: self.dsl,
            cmd: text_view(self.cmd),
            since: text_view(self.since),
            name: text_view(self.name),
            this: self.this,
            enforce: self.enforce@,
            repr: self.repr,
            same_as: types_view(self.same_as@),
            limit: match self.limit {
                Some((x, y)) => Some((x@, y@)),
                None => None,
            },
            raw_json: self.raw_json,
            hint_id: match self.hint_id {
                Some((x, y)) => Some(((x.0@, x.1), (y.0@, y.1))),
                None => None,
            },
            span: self.span,
        }
    }
}

/// Metadata with nothing set.
pub open spec fn empty_meta() -> DefMetaV {
    DefMetaV {
        builtin: None,
        inline: false,
        allow: Seq::empty(),
        nullable: false,
        hint: None,
        restrict: Seq::empty(),
        require: Seq::empty(),
        dsl: None,
        cmd: None,
        since: None,
        name: None,
        this: false,
        enforce: Seq::empty(),
        repr: Repr::Default,
        same_as: Seq::empty(),
        limit: None,
        raw_json: false,
        hint_id: None,
        span: SourceSpan { start: 0, end: 0 },
    }
}

impl<'a> Default for DefMeta<'a> {
    fn default() -> (r: DefMeta<'a>)
        ensures
            r@ == empty_meta(),
    {
        let r = DefMeta {
            builtin: None,
            inline: false,
            allow: Vec::new(),
            nullable: false,
            hint: None,
            restrict: Vec::new(),
            require: Vec::new(),
            dsl: None,
            cmd: None,
            since: None,
            name: None,
            this: false,
            enforce: Vec::new(),
            repr: Repr::Default,
            same_as: Vec::new(),
            limit: None,
            raw_json: false,
            hint_id: None,
            span: SourceSpan { start: 0, end: 0 },
        };
        assert(r@.restrict =~= Seq::<RestrictV>::empty());
        assert(r@.require =~= Seq::<RequireV>::empty());
        assert(r@.same_as =~= Seq::<Seq<(TreeV, SourceSpan)>>::empty());
        r
    }
}

/// Adds the items of `b` to `a` one by one; an item already in `a` (one of `b`'s own earlier
/// items included) stops the merge, leaving what was added so far. The flag tells whether
/// it stopped.
pub open spec fn merge_list<A>(a: Seq<A>, b: Seq<A>) -> (Seq<A>, bool)
    decreases b.len(),
{
    if b.len() == 0 {
        (a, false)
    } else if a.contains(b[0]) {
        (a, true)
    } else {
        merge_list(a.push(b[0]), b.drop_first())
    }
}

/// The state of a merge: the metadata so far, and the kind of the attribute found twice.
pub type MergeState = (DefMetaV, Option<Seq<char>>);

pub open spec fn merge_builtin(s: MergeState, b: DefMetaV) -> MergeState {
    if s.1 is Some || b.builtin is None {
        s
    } else if s.0.builtin is Some {
        (s.0, Some("builtin"@))
    } else {
        (DefMetaV { builtin: b.builtin, ..s.0 }, None)
    }
}

pub open spec fn merge_inline(s: MergeState, b: DefMetaV) -> MergeState {
    if s.1 is Some || !b.inline {
        s
    } else if s.0.inline {
        (s.0, Some("inline"@))
    } else {
        (DefMetaV { inline: true, ..s.0 }, None)
    }
}

pub open spec fn merge_allow(s: MergeState, b: DefMetaV) -> MergeState {
    if s.1 is Some {
        s
    } else {
        let (l, dup) = merge_list(s.0.allow, b.allow);
        (DefMetaV { allow: l, ..s.0 }, if dup { Some("allow"@) } else { None })
    }
}

pub open spec fn merge_nullable(s: MergeState, b: DefMetaV) -> MergeState {
    if s.1 is Some || !b.nullable {
        s
    } else if s.0.nullable {
        (s.0, Some("nullable"@))
    } else {
        (DefMetaV { nullable: true, ..s.0 }, None)
    }
}

pub open spec fn merge_hint(s: MergeState, b: DefMetaV) -> MergeState {
    if s.1 is Some || b.hint is None {
        s
    } else if s.0.hint is Some {
        (s.0, Some("hint"@))
    } else {
        (DefMetaV { hint: b.hint, ..s.0 }, None)
    }
}

pub open spec fn merge_restrict(s: MergeState, b: DefMetaV) -> MergeState {
    if s.1 is Some {
        s
    } else {
        let (l, dup) = merge_list(s.0.restrict, b.restrict);
        (DefMetaV { restrict: l, ..s.0 }, if dup { Some("restrict"@) } else { None })
    }
}

pub open spec fn merge_require(s: MergeState, b: DefMetaV) -> MergeState {
    if s.1 is Some {
        s
    } else {
        let (l, dup) = merge_list(s.0.require, b.require);
        (DefMetaV { require: l, ..s.0 }, if dup { Some("require"@) } else { None })
    }
}

pub open spec fn merge_dsl(s: MergeState, b: DefMetaV) -> MergeState {
    if s.1 is Some || b.dsl is None {
        s
    } else if s.0.dsl is Some {
        (s.0, Some("dsl"@))
    } else {
        (DefMetaV { dsl: b.dsl, ..s.0 }, None)
    }
}

pub open spec fn merge_cmd(s: MergeState, b: DefMetaV) -> MergeState {
    if s.1 is Some || b.cmd is None {
        s
    } else if s.0.cmd is Some {
        (s.0, Some("cmd"@))
    } else {
        (DefMetaV { cmd: b.cmd, ..s.0 }, None)
    }
}

pub open spec fn merge_since(s: MergeState, b: DefMetaV) -> MergeState {
    if s.1 is Some || b.since is None {
        s
    } else if s.0.since is Some {
        (s.0, Some("since"@))
    } else {
        (DefMetaV { since: b.since, ..s.0 }, None)
    }
}

pub open spec fn merge_name(s: MergeState, b: DefMetaV) -> MergeState {
    if s.1 is Some || b.name is None {
        s
    } else if s.0.name is Some {
        (s.0, Some("name"@))
    } else {
        (DefMetaV { name: b.name, ..s.0 }, None)
    }
}

pub open spec fn merge_this(s: MergeState, b: DefMetaV) -> MergeState {
    if s.1 is Some || !b.this {
        s
    } else if s.0.this {
        (s.0, Some("this"@))
    } else {
        (DefMetaV { this: true, ..s.0 }, None)
    }
}

pub open spec fn merge_enforce(s: MergeState, b: DefMetaV) -> MergeState {
    if s.1 is Some {
        s
    } else {
        let (l, dup) = merge_list(s.0.enforce, b.enforce);
        (DefMetaV { enforce: l, ..s.0 }, if dup { Some("enforce"@) } else { None })
    }
}

pub open spec fn merge_repr(s: MergeState, b: DefMetaV) -> MergeState {
    if s.1 is Some || b.repr == Repr::Default {
        s
    } else if s.0.repr != Repr::Default {
        (s.0, Some("repr"@))
    } else {
        (DefMetaV { repr: b.repr, ..s.0 }, None)
    }
}

pub open spec fn merge_same_as(s: MergeState, b: DefMetaV) -> MergeState {
    if s.1 is Some {
        s
    } else {
        (DefMetaV { same_as: s.0.same_as + b.same_as, ..s.0 }, None)
    }
}

pub open spec fn merge_limit(s: MergeState, b: DefMetaV) -> MergeState {
    if s.1 is Some || b.limit is None {
        s
    } else if s.0.limit is Some {
        (s.0, Some("limit"@))
    } else {
        (DefMetaV { limit: b.limit, ..s.0 }, None)
    }
}

pub open spec fn merge_raw_json(s: MergeState, b: DefMetaV) -> MergeState {
    if s.1 is Some || !b.raw_json {
        s
    } else if s.0.raw_json {
        (s.0, Some("raw_json"@))
    } else {
        (DefMetaV { raw_json: true, ..s.0 }, None)
    }
}

pub open spec fn merge_hint_id(s: MergeState, b: DefMetaV) -> MergeState {
    if s.1 is Some || b.hint_id is None {
        s
    } else if s.0.hint_id is Some {
        (s.0, Some("hint_id"@))
    } else {
        (DefMetaV { hint_id: b.hint_id, ..s.0 }, None)
    }
}

/// The span from the earlier-starting span's start to the later-starting span's end (the
/// first one winning a tie for the start, the second one for the end).
pub open spec fn join_by_start(a: SourceSpan, b: SourceSpan) -> SourceSpan {
    let min = if b.start < a.start { b } else { a };
    let max = if b.start >= a.start { b } else { a };
    SourceSpan { start: min.start, end: max.end }
}

pub open spec fn merge_span(s: MergeState, b: DefMetaV) -> MergeState {
    if s.1 is Some {
        s
    } else {
        (DefMetaV { span: join_by_start(s.0.span, b.span), ..s.0 }, None)
    }
}

/// Step `k` of a merge: the attributes in the order they are merged, the spans last.
pub open spec fn merge_step(k: int, s: MergeState, b: DefMetaV) -> MergeState {
    if k == 0 {
        merge_builtin(s, b)
    } else if k == 1 {
        merge_inline(s, b)
    } else if k == 2 {
        merge_allow(s, b)
    } else if k == 3 {
        merge_nullable(s, b)
    } else if k == 4 {
        merge_hint(s, b)
    } else if k == 5 {
        merge_restrict(s, b)
    } else if k == 6 {
        merge_require(s, b)
    } else if k == 7 {
        merge_dsl(s, b)
    } else if k == 8 {
        merge_cmd(s, b)
    } else if k == 9 {
        merge_since(s, b)
    } else if k == 10 {
        merge_name(s, b)
    } else if k == 11 {
        merge_this(s, b)
    } else if k == 12 {
        merge_enforce(s, b)
    } else if k == 13 {
        merge_repr(s, b)
    } else if k == 14 {
        merge_same_as(s, b)
    } else if k == 15 {
        merge_limit(s, b)
    } else if k == 16 {
        merge_raw_json(s, b)
    } else if k == 17 {
        merge_hint_id(s, b)
    } else if k == 18 {
        merge_span(s, b)
    } else {
        s
    }
}

/// The merge from step `k` on.
pub open spec fn merge_from(k: int, s: MergeState, b: DefMetaV) -> MergeState
    decreases 19 - k,
{
    if k < 0 || k >= 19 {
        s
    } else {
        merge_from(k + 1, merge_step(k, s, b), b)
    }
}

/// Merging `b` into `a`: attribute by attribute, in this order, each one set in `b` is
/// taken over unless `a` has it already, which fails with that attribute's kind; lists are
/// merged item by item, a repeated item failing; `same_as` types are appended; at last the
/// spans are joined. On failure, what was merged before stays merged.
pub open spec fn merge_spec(a: DefMetaV, b: DefMetaV) -> MergeState {
    merge_from(0, (a, None), b)
}

/// Once a merge has failed, no later step changes anything.
proof fn lemma_merge_failed(k: int, s: MergeState, b: DefMetaV)
    requires
        s.1 is Some,
    ensures
        merge_from(k, s, b) == s,
    decreases 19 - k,
{
    if 0 <= k < 19 {
        lemma_merge_failed(k + 1, merge_step(k, s, b), b);
    }
}

/// Whether adding the items of `b` one by one meets an item already there.
pub open spec fn list_conflict<A>(a: Seq<A>, b: Seq<A>) -> bool {
    exists|i: int| 0 <= i < b.len() && #[trigger] (a + b.take(i)).contains(b[i])
}

proof fn lemma_merge_list<A>(a: Seq<A>, b: Seq<A>)
    ensures
        list_conflict(a, b) ==> merge_list(a, b).1,
        !list_conflict(a, b) ==> merge_list(a, b) == (a + b, false),
    decreases b.len(),
{
    if b.len() == 0 {
        assert(a + b =~= a);
    } else if a.contains(b[0]) {
        assert(a + b.take(0) =~= a);
        assert(list_conflict(a, b));
    } else {
        let a1 = a.push(b[0]);
        let b1 = b.drop_first();
        lemma_merge_list(a1, b1);
        assert forall|i: int| 0 <= i < b1.len() implies (a1 + b1.take(i)) =~= (a + b.take(i + 1)) && b1[i] == b[i + 1] by {}
        if list_conflict(a, b) {
            let i = choose|i: int| 0 <= i < b.len() && #[trigger] (a + b.take(i)).contains(b[i]);
            assert(i > 0) by {
                if i == 0 {
                    assert(a + b.take(0) =~= a);
                }
            }
            assert((a1 + b1.take(i - 1)).contains(b1[i - 1]));
        } else {
            assert forall|i: int| 0 <= i < b1.len() implies !(#[trigger] (a1 + b1.take(i)).contains(b1[i])) by {
                assert(!(a + b.take(i + 1)).contains(b[i + 1]));
            }
            assert(a1 + b1 =~= a + b);
        }
    }
}

/// The first attribute, in the order of a merge, that both sides give: an option or flag
/// set on both sides, a list item of `b` already present, or a representation other than
/// the default on both sides.
pub open spec fn first_conflict(a: DefMetaV, b: DefMetaV) -> Option<Seq<char>> {
    if a.builtin is Some && b.builtin is Some {
        Some("builtin"@)
    } else if a.inline && b.inline {
        Some("inline"@)
    } else if list_conflict(a.allow, b.allow) {
        Some("allow"@)
    } else if a.nullable && b.nullable {
        Some("nullable"@)
    } else if a.hint is Some && b.hint is Some {
        Some("hint"@)
    } else if list_conflict(a.restrict, b.restrict) {
        Some("restrict"@)
    } else if list_conflict(a.require, b.require) {
        Some("require"@)
    } else if a.dsl is Some && b.dsl is Some {
        Some("dsl"@)
    } else if a.cmd is Some && b.cmd is Some {
        Some("cmd"@)
    } else if a.since is Some && b.since is Some {
        Some("since"@)
    } else if a.name is Some && b.name is Some {
        Some("name"@)
    } else if a.this && b.this {
        Some("this"@)
    } else if list_conflict(a.enforce, b.enforce) {
        Some("enforce"@)
    } else if a.repr != Repr::Default && b.repr != Repr::Default {
        Some("repr"@)
    } else if a.limit is Some && b.limit is Some {
        Some("limit"@)
    } else if a.raw_json && b.raw_json {
        Some("raw_json"@)
    } else if a.hint_id is Some && b.hint_id is Some {
        Some("hint_id"@)
    } else {
        None
    }
}

/// The metadata both sides give together: each attribute from the side that sets it,
/// lists one after the other, and the spans joined.
pub open spec fn merged_meta(a: DefMetaV, b: DefMetaV) -> DefMetaV {
    DefMetaV {
        builtin: if b.builtin is Some { b.builtin } else { a.builtin },
        inline: a.inline || b.inline,
        allow: a.allow + b.allow,
        nullable: a.nullable || b.nullable,
        hint: if b.hint is Some { b.hint } else { a.hint },
        restrict: a.restrict + b.restrict,
        require: a.require + b.require,
        dsl: if b.dsl is Some { b.dsl } else { a.dsl },
        cmd: if b.cmd is Some { b.cmd } else { a.cmd },
        since: if b.since is Some { b.since } else { a.since },
        name: if b.name is Some { b.name } else { a.name },
        this: a.this || b.this,
        enforce: a.enforce + b.enforce,
        repr: if b.repr != Repr::Default { b.repr } else { a.repr },
        limit: if b.limit is Some { b.limit } else { a.limit },
        raw_json: a.raw_json || b.raw_json,
        hint_id: if b.hint_id is Some { b.hint_id } else { a.hint_id },
        same_as: a.same_as + b.same_as,
        span: join_by_start(a.span, b.span),
    }
}

/// The metadata after the first `k` steps of a merge that met no conflict.
pub open spec fn merged_upto(k: int, a: DefMetaV, b: DefMetaV) -> DefMetaV {
    DefMetaV {
        builtin: if k > 0 { if b.builtin is Some { b.builtin } else { a.builtin } } else { a.builtin },
        inline: if k > 1 { a.inline || b.inline } else { a.inline },
        allow: if k > 2 { a.allow + b.allow } else { a.allow },
        nullable: if k > 3 { a.nullable || b.nullable } else { a.nullable },
        hint: if k > 4 { if b.hint is Some { b.hint } else { a.hint } } else { a.hint },
        restrict: if k > 5 { a.restrict + b.restrict } else { a.restrict },
        require: if k > 6 { a.require + b.require } else { a.require },
        dsl: if k > 7 { if b.dsl is Some { b.dsl } else { a.dsl } } else { a.dsl },
        cmd: if k > 8 { if b.cmd is Some { b.cmd } else { a.cmd } } else { a.cmd },
        since: if k > 9 { if b.since is Some { b.since } else { a.since } } else { a.since },
        name: if k > 10 { if b.name is Some { b.name } else { a.name } } else { a.name },
        this: if k > 11 { a.this || b.this } else { a.this },
        enforce: if k > 12 { a.enforce + b.enforce } else { a.enforce },
        repr: if k > 13 { if b.repr != Repr::Default { b.repr } else { a.repr } } else { a.repr },
        same_as: if k > 14 { a.same_as + b.same_as } else { a.same_as },
        limit: if k > 15 { if b.limit is Some { b.limit } else { a.limit } } else { a.limit },
        raw_json: if k > 16 { a.raw_json || b.raw_json } else { a.raw_json },
        hint_id: if k > 17 { if b.hint_id is Some { b.hint_id } else { a.hint_id } } else { a.hint_id },
        span: if k > 18 { join_by_start(a.span, b.span) } else { a.span },
    }
}

/// The conflict that step `k` of a merge meets, if any.
pub open spec fn step_conflict(k: int, a: DefMetaV, b: DefMetaV) -> Option<Seq<char>> {
    if k == 0 && a.builtin is Some && b.builtin is Some {
        Some("builtin"@)
    } else if k == 1 && a.inline && b.inline {
        Some("inline"@)
    } else if k == 2 && list_conflict(a.allow, b.allow) {
        Some("allow"@)
    } else if k == 3 && a.nullable && b.nullable {
        Some("nullable"@)
    } else if k == 4 && a.hint is Some && b.hint is Some {
        Some("hint"@)
    } else if k == 5 && list_conflict(a.restrict, b.restrict) {
        Some("restrict"@)
    } else if k == 6 && list_conflict(a.require, b.require) {
        Some("require"@)
    } else if k == 7 && a.dsl is Some && b.dsl is Some {
        Some("dsl"@)
    } else if k == 8 && a.cmd is Some && b.cmd is Some {
        Some("cmd"@)
    } else if k == 9 && a.since is Some && b.since is Some {
        Some("since"@)
    } else if k == 10 && a.name is Some && b.name is Some {
        Some("name"@)
    } else if k == 11 && a.this && b.this {
        Some("this"@)
    } else if k == 12 && list_conflict(a.enforce, b.enforce) {
        Some("enforce"@)
    } else if k == 13 && a.repr != Repr::Default && b.repr != Repr::Default {
        Some("repr"@)
    } else if k == 15 && a.limit is Some && b.limit is Some {
        Some("limit"@)
    } else if k == 16 && a.raw_json && b.raw_json {
        Some("raw_json"@)
    } else if k == 17 && a.hint_id is Some && b.hint_id is Some {
        Some("hint_id"@)
    } else {
        None
    }
}

/// The first conflict from step `k` on.
pub open spec fn conflict_from(k: int, a: DefMetaV, b: DefMetaV) -> Option<Seq<char>>
    decreases 19 - k,
{
    if k < 0 || k >= 19 {
        None
    } else if step_conflict(k, a, b) is Some {
        step_conflict(k, a, b)
    } else {
        conflict_from(k + 1, a, b)
    }
}

#[verifier::spinoff_prover]
#[verifier::rlimit(50)]
proof fn lemma_merge_step(k: int, a: DefMetaV, b: DefMetaV)
    requires
        0 <= k < 19,
    ensures
        match step_conflict(k, a, b) {
            Some(kind) => merge_step(k, (merged_upto(k, a, b), None), b).1 == Some(kind),
            None => merge_step(k, (merged_upto(k, a, b), None), b) == (merged_upto(k + 1, a, b), None::<Seq<char>>),
        },
{
    lemma_merge_list(a.allow, b.allow);
    lemma_merge_list(a.restrict, b.restrict);
    lemma_merge_list(a.require, b.require);
    lemma_merge_list(a.enforce, b.enforce);
    if k == 0 {
        assert(match step_conflict(0, a, b) { Some(kind) => merge_step(0, (merged_upto(0, a, b), None), b).1 == Some(kind), None => merge_step(0, (merged_upto(0, a, b), None), b) == (merged_upto(1, a, b), None::<Seq<char>>) });
    } else if k == 1 {
        assert(match step_conflict(1, a, b) { Some(kind) => merge_step(1, (merged_upto(1, a, b), None), b).1 == Some(kind), None => merge_step(1, (merged_upto(1, a, b), None), b) == (merged_upto(2, a, b), None::<Seq<char>>) });
    } else if k == 2 {
        assert(match step_conflict(2, a, b) { Some(kind) => merge_step(2, (merged_upto(2, a, b), None), b).1 == Some(kind), None => merge_step(2, (merged_upto(2, a, b), None), b) == (merged_upto(3, a, b), None::<Seq<char>>) });
    } else if k == 3 {
        assert(match step_conflict(3, a, b) { Some(kind) => merge_step(3, (merged_upto(3, a, b), None), b).1 == Some(kind), None => merge_step(3, (merged_upto(3, a, b), None), b) == (merged_upto(4, a, b), None::<Seq<char>>) });
    } else if k == 4 {
        assert(match step_conflict(4, a, b) { Some(kind) => merge_step(4, (merged_upto(4, a, b), None), b).1 == Some(kind), None => merge_step(4, (merged_upto(4, a, b), None), b) == (merged_upto(5, a, b), None::<Seq<char>>) });
    } else if k == 5 {
        assert(match step_conflict(5, a, b) { Some(kind) => merge_step(5, (merged_upto(5, a, b), None), b).1 == Some(kind), None => merge_step(5, (merged_upto(5, a, b), None), b) == (merged_upto(6, a, b), None::<Seq<char>>) });
    } else if k == 6 {
        assert(match step_conflict(6, a, b) { Some(kind) => merge_step(6, (merged_upto(6, a, b), None), b).1 == Some(kind), None => merge_step(6, (merged_upto(6, a, b), None), b) == (merged_upto(7, a, b), None::<Seq<char>>) });
    } else if k == 7 {
        assert(match step_conflict(7, a, b) { Some(kind) => merge_step(7, (merged_upto(7, a, b), None), b).1 == Some(kind), None => merge_step(7, (merged_upto(7, a, b), None), b) == (merged_upto(8, a, b), None::<Seq<char>>) });
    } else if k == 8 {
        assert(match step_conflict(8, a, b) { Some(kind) => merge_step(8, (merged_upto(8, a, b), None), b).1 == Some(kind), None => merge_step(8, (merged_upto(8, a, b), None), b) == (merged_upto(9, a, b), None::<Seq<char>>) });
    } else if k == 9 {
        assert(match step_conflict(9, a, b) { Some(kind) => merge_step(9, (merged_upto(9, a, b), None), b).1 == Some(kind), None => merge_step(9, (merged_upto(9, a, b), None), b) == (merged_upto(10, a, b), None::<Seq<char>>) });
    } else if k == 10 {
        assert(match step_conflict(10, a, b) { Some(kind) => merge_step(10, (merged_upto(10, a, b), None), b).1 == Some(kind), None => merge_step(10, (merged_upto(10, a, b), None), b) == (merged_upto(11, a, b), None::<Seq<char>>) });
    } else if k == 11 {
        assert(match step_conflict(11, a, b) { Some(kind) => merge_step(11, (merged_upto(11, a, b), None), b).1 == Some(kind), None => merge_step(11, (merged_upto(11, a, b), None), b) == (merged_upto(12, a, b), None::<Seq<char>>) });
    } else if k == 12 {
        assert(match step_conflict(12, a, b) { Some(kind) => merge_step(12, (merged_upto(12, a, b), None), b).1 == Some(kind), None => merge_step(12, (merged_upto(12, a, b), None), b) == (merged_upto(13, a, b), None::<Seq<char>>) });
    } else if k == 13 {
        assert(match step_conflict(13, a, b) { Some(kind) => merge_step(13, (merged_upto(13, a, b), None), b).1 == Some(kind), None => merge_step(13, (merged_upto(13, a, b), None), b) == (merged_upto(14, a, b), None::<Seq<char>>) });
    } else if k == 14 {
        assert(match step_conflict(14, a, b) { Some(kind) => merge_step(14, (merged_upto(14, a, b), None), b).1 == Some(kind), None => merge_step(14, (merged_upto(14, a, b), None), b) == (merged_upto(15, a, b), None::<Seq<char>>) });
    } else if k == 15 {
        assert(match step_conflict(15, a, b) { Some(kind) => merge_step(15, (merged_upto(15, a, b), None), b).1 == Some(kind), None => merge_step(15, (merged_upto(15, a, b), None), b) == (merged_upto(16, a, b), None::<Seq<char>>) });
    } else if k == 16 {
        assert(match step_conflict(16, a, b) { Some(kind) => merge_step(16, (merged_upto(16, a, b), None), b).1 == Some(kind), None => merge_step(16, (merged_upto(16, a, b), None), b) == (merged_upto(17, a, b), None::<Seq<char>>) });
    } else if k == 17 {
        assert(match step_conflict(17, a, b) { Some(kind) => merge_step(17, (merged_upto(17, a, b), None), b).1 == Some(kind), None => merge_step(17, (merged_upto(17, a, b), None), b) == (merged_upto(18, a, b), None::<Seq<char>>) });
    } else if k == 18 {
        assert(match step_conflict(18, a, b) { Some(kind) => merge_step(18, (merged_upto(18, a, b), None), b).1 == Some(kind), None => merge_step(18, (merged_upto(18, a, b), None), b) == (merged_upto(19, a, b), None::<Seq<char>>) });
    }
}

proof fn lemma_merge_from(k: int, a: DefMetaV, b: DefMetaV)
    requires
        0 <= k <= 19,
    ensures
        merge_from(k, (merged_upto(k, a, b), None), b) == match conflict_from(k, a, b) {
            Some(kind) => (merge_from(k, (merged_upto(k, a, b), None), b).0, Some(kind)),
            None => (merged_upto(19, a, b), None::<Seq<char>>),
        },
    decreases 19 - k,
{
    if k < 19 {
        lemma_merge_step(k, a, b);
        if step_conflict(k, a, b) is Some {
            lemma_merge_failed(k + 1, merge_step(k, (merged_upto(k, a, b), None), b), b);
        } else {
            lemma_merge_from(k + 1, a, b);
        }
    }
}

proof fn lemma_first_conflict(k: int, a: DefMetaV, b: DefMetaV)
    requires
        0 <= k <= 19,
    ensures
        conflict_from(k, a, b) == if k == 0 { first_conflict(a, b) } else { conflict_from(k, a, b) },
{
    reveal_with_fuel(conflict_from, 20);
}

/// Merging fails exactly at the first attribute that both sides give, naming it; otherwise
/// it takes each attribute from the side that sets it, puts lists one after the other, and
/// joins the spans.
pub proof fn law_merge_direct(a: DefMetaV, b: DefMetaV)
    ensures
        merge_spec(a, b).1 == first_conflict(a, b),
        first_conflict(a, b) is None ==> merge_spec(a, b).0 == merged_meta(a, b),
{
    assert(merged_upto(0, a, b) == a);
    lemma_merge_from(0, a, b);
    lemma_first_conflict(0, a, b);
    assert(merged_upto(19, a, b) == merged_meta(a, b));
}

/// Whether two restrictions are the same.
fn restrict_eq<'a>(x: &Restrict<'a>, y: &Restrict<'a>) -> (r: bool)
    ensures
        r == (x@ == y@),
{
    match (x, y) {
        (Restrict::Values(v), Restrict::Values(w)) => {
            let ghost vv = v@.map_values(|l: Literal<'a>| l@);
            let ghost ww = w@.map_values(|l: Literal<'a>| l@);
            if v.len() != w.len() {
                assert(vv.len() != ww.len());
                return false;
            }
            let mut i: usize = 0;
            while i < v.len()
                invariant
                    v@.len() == w@.len(),
                    i <= v@.len(),
                    vv == v@.map_values(|l: Literal<'a>| l@),
                    ww == w@.map_values(|l: Literal<'a>| l@),
                    x@ == RestrictV::Values(vv),
                    y@ == RestrictV::Values(ww),
                    forall|j: int| 0 <= j < i ==> vv[j] == ww[j],
                decreases v@.len() - i,
            {
                if !literal_value_eq(&v[i].value, &w[i].value) || v[i].span != w[i].span {
                    assert(vv[i as int] != ww[i as int]);
                    return false;
                }
                i = i + 1;
            }
            assert(vv =~= ww);
            true
        },
    }
}

/// Whether two requirements are the same.
fn require_eq<'a>(x: &Require<'a>, y: &Require<'a>) -> (r: bool)
    ensures
        r == (x@ == y@),
{
    match (x, y) {
        (Require::OneOf(v), Require::OneOf(w)) => {
            let ghost vv = v@.map_values(|x: (&'a str, SourceSpan)| (x.0@, x.1));
            let ghost ww = w@.map_values(|x: (&'a str, SourceSpan)| (x.0@, x.1));
            if v.len() != w.len() {
                assert(vv.len() != ww.len());
                return false;
            }
            let mut i: usize = 0;
            while i < v.len()
                invariant
                    v@.len() == w@.len(),
                    i <= v@.len(),
                    vv == v@.map_values(|x: (&'a str, SourceSpan)| (x.0@, x.1)),
                    ww == w@.map_values(|x: (&'a str, SourceSpan)| (x.0@, x.1)),
                    x@ == RequireV::OneOf(vv),
                    y@ == RequireV::OneOf(ww),
                    forall|j: int| 0 <= j < i ==> vv[j] == ww[j],
                decreases v@.len() - i,
            {
                if !str_eq(v[i].0, w[i].0) || v[i].1 != w[i].1 {
                    assert(vv[i as int] != ww[i as int]);
                    return false;
                }
                i = i + 1;
            }
            assert(vv =~= ww);
            true
        },
        (Require::Store, Require::Store) => true,
        _ => false,
    }
}

/// Merges `b` into `a` (see `merge_list`); the result tells whether an item was repeated.
fn merge_allow_list(a: &mut Vec<AllowFlag>, b: Vec<AllowFlag>) -> (dup: bool)
    ensures
        (final(a)@, dup) == merge_list(old(a)@, b@),
{
    let mut items = b;
    loop
        invariant
            merge_list(old(a)@, b@) == merge_list(a@, items@),
        decreases items@.len(),
    {
        if items.len() == 0 {
            return false;
        }
        let ghost before = items@;
        let x = items.remove(0);
        assert(items@ =~= before.drop_first());
        assert(x == before[0]);
        let mut found = false;
        let mut i: usize = 0;
        while i < a.len()
            invariant
                i <= a@.len(),
                found <==> exists|j: int| 0 <= j < i && a@[j] == x,
            decreases a@.len() - i,
        {
            if a[i] == x {
                found = true;
            }
            i = i + 1;
        }
        if found {
            return true;
        }
        a.push(x);
    }
}

/// Merges `b` into `a` (see `merge_list`); the result tells whether an item was repeated.
fn merge_enforce_list(a: &mut Vec<EnforceType>, b: Vec<EnforceType>) -> (dup: bool)
    ensures
        (final(a)@, dup) == merge_list(old(a)@, b@),
{
    let mut items = b;
    loop
        invariant
            merge_list(old(a)@, b@) == merge_list(a@, items@),
        decreases items@.len(),
    {
        if items.len() == 0 {
            return false;
        }
        let ghost before = items@;
        let x = items.remove(0);
        assert(items@ =~= before.drop_first());
        assert(x == before[0]);
        let mut found = false;
        let mut i: usize = 0;
        while i < a.len()
            invariant
                i <= a@.len(),
                found <==> exists|j: int| 0 <= j < i && a@[j] == x,
            decreases a@.len() - i,
        {
            if a[i] == x {
                found = true;
            }
            i = i + 1;
        }
        if found {
            return true;
        }
        a.push(x);
    }
}

/// Merges `b` into `a` (see `merge_list`), comparing items by value; the result tells
/// whether an item was repeated.
fn merge_restrict_list<'a>(a: &mut Vec<Restrict<'a>>, b: Vec<Restrict<'a>>) -> (dup: bool)
    ensures
        (restricts_view(final(a)@), dup) == merge_list(restricts_view(old(a)@), restricts_view(b@)),
{
    let mut items = b;
    loop
        invariant
            merge_list(restricts_view(old(a)@), restricts_view(b@)) == merge_list(restricts_view(a@), restricts_view(items@)),
        decreases items@.len(),
    {
        if items.len() == 0 {
            return false;
        }
        let ghost before = items@;
        let x = items.remove(0);
        assert(restricts_view(items@) =~= restricts_view(before).drop_first());
        assert(x@ == restricts_view(before)[0]);
        let mut found = false;
        let mut i: usize = 0;
        while i < a.len()
            invariant
                i <= a@.len(),
                found <==> exists|j: int| 0 <= j < i && restricts_view(a@)[j] == x@,
                restricts_view(a@).len() == a@.len(),
            decreases a@.len() - i,
        {
            assert(restricts_view(a@)[i as int] == a@[i as int]@);
            if restrict_eq(&a[i], &x) {
                found = true;
            }
            i = i + 1;
        }
        if found {
            assert(restricts_view(a@).contains(x@));
            return true;
        }
        let ghost pre = a@;
        a.push(x);
        assert(restricts_view(a@) =~= restricts_view(pre).push(x@));
    }
}

/// Merges `b` into `a` (see `merge_list`), comparing items by value; the result tells
/// whether an item was repeated.
fn merge_require_list<'a>(a: &mut Vec<Require<'a>>, b: Vec<Require<'a>>) -> (dup: bool)
    ensures
        (requires_view(final(a)@), dup) == merge_list(requires_view(old(a)@), requires_view(b@)),
{
    let mut items = b;
    loop
        invariant
            merge_list(requires_view(old(a)@), requires_view(b@)) == merge_list(requires_view(a@), requires_view(items@)),
        decreases items@.len(),
    {
        if items.len() == 0 {
            return false;
        }
        let ghost before = items@;
        let x = items.remove(0);
        assert(requires_view(items@) =~= requires_view(before).drop_first());
        assert(x@ == requires_view(before)[0]);
        let mut found = false;
        let mut i: usize = 0;
        while i < a.len()
            invariant
                i <= a@.len(),
                found <==> exists|j: int| 0 <= j < i && requires_view(a@)[j] == x@,
                requires_view(a@).len() == a@.len(),
            decreases a@.len() - i,
        {
            assert(requires_view(a@)[i as int] == a@[i as int]@);
            if require_eq(&a[i], &x) {
                found = true;
            }
            i = i + 1;
        }
        if found {
            assert(requires_view(a@).contains(x@));
            return true;
        }
        let ghost pre = a@;
        a.push(x);
        assert(requires_view(a@) =~= requires_view(pre).push(x@));
    }
}

/// The `builtin` step of a merge.
fn merge_builtin_into<'a>(a: &mut DefMeta<'a>, x: Option<BuiltinInfo<'a>>, Ghost(bv): Ghost<DefMetaV>) -> (ok: bool)
    requires
        match x { Some(v) => Some(v@), None => None::<BuiltinV> } == bv.builtin,
    ensures
        ({
            let s = merge_builtin((old(a)@, None), bv);
            &&& final(a)@ == s.0
            &&& ok <==> s.1 is None
            &&& !ok ==> s.1 == Some("builtin"@)
        }),
{
    match x {
        Some(v) => {
            if a.builtin.is_some() {
                return false;
            }
            a.builtin = Some(v);
            true
        },
        None => true,
    }
}

/// The `inline` step of a merge.
fn merge_inline_into<'a>(a: &mut DefMeta<'a>, x: bool, Ghost(bv): Ghost<DefMetaV>) -> (ok: bool)
    requires
        x == bv.inline,
    ensures
        ({
            let s = merge_inline((old(a)@, None), bv);
            &&& final(a)@ == s.0
            &&& ok <==> s.1 is None
            &&& !ok ==> s.1 == Some("inline"@)
        }),
{
    if x {
        if a.inline {
            return false;
        }
        a.inline = true;
    }
    true
}

/// The `allow` step of a merge.
fn merge_allow_into<'a>(a: &mut DefMeta<'a>, x: Vec<AllowFlag>, Ghost(bv): Ghost<DefMetaV>) -> (ok: bool)
    requires
        x@ == bv.allow,
    ensures
        ({
            let s = merge_allow((old(a)@, None), bv);
            &&& final(a)@ == s.0
            &&& ok <==> s.1 is None
            &&& !ok ==> s.1 == Some("allow"@)
        }),
{
    !merge_allow_list(&mut a.allow, x)
}

/// The `nullable` step of a merge.
fn merge_nullable_into<'a>(a: &mut DefMeta<'a>, x: bool, Ghost(bv): Ghost<DefMetaV>) -> (ok: bool)
    requires
        x == bv.nullable,
    ensures
        ({
            let s = merge_nullable((old(a)@, None), bv);
            &&& final(a)@ == s.0
            &&& ok <==> s.1 is None
            &&& !ok ==> s.1 == Some("nullable"@)
        }),
{
    if x {
        if a.nullable {
            return false;
        }
        a.nullable = true;
    }
    true
}

/// The `hint` step of a merge.
fn merge_hint_into<'a>(a: &mut DefMeta<'a>, x: Option<(&'a str, SourceSpan)>, Ghost(bv): Ghost<DefMetaV>) -> (ok: bool)
    requires
        text_view(x) == bv.hint,
    ensures
        ({
            let s = merge_hint((old(a)@, None), bv);
            &&& final(a)@ == s.0
            &&& ok <==> s.1 is None
            &&& !ok ==> s.1 == Some("hint"@)
        }),
{
    match x {
        Some(v) => {
            if a.hint.is_some() {
                return false;
            }
            a.hint = Some(v);
            true
        },
        None => true,
    }
}

/// The `restrict` step of a merge.
fn merge_restrict_into<'a>(a: &mut DefMeta<'a>, x: Vec<Restrict<'a>>, Ghost(bv): Ghost<DefMetaV>) -> (ok: bool)
    requires
        restricts_view(x@) == bv.restrict,
    ensures
        ({
            let s = merge_restrict((old(a)@, None), bv);
            &&& final(a)@ == s.0
            &&& ok <==> s.1 is None
            &&& !ok ==> s.1 == Some("restrict"@)
        }),
{
    !merge_restrict_list(&mut a.restrict, x)
}

/// The `require` step of a merge.
fn merge_require_into<'a>(a: &mut DefMeta<'a>, x: Vec<Require<'a>>, Ghost(bv): Ghost<DefMetaV>) -> (ok: bool)
    requires
        requires_view(x@) == bv.require,
    ensures
        ({
            let s = merge_require((old(a)@, None), bv);
            &&& final(a)@ == s.0
            &&& ok <==> s.1 is None
            &&& !ok ==> s.1 == Some("require"@)
        }),
{
    !merge_require_list(&mut a.require, x)
}

/// The `dsl` step of a merge.
fn merge_dsl_into<'a>(a: &mut DefMeta<'a>, x: Option<DslMarker>, Ghost(bv): Ghost<DefMetaV>) -> (ok: bool)
    requires
        x == bv.dsl,
    ensures
        ({
            let s = merge_dsl((old(a)@, None), bv);
            &&& final(a)@ == s.0
            &&& ok <==> s.1 is None
            &&& !ok ==> s.1 == Some("dsl"@)
        }),
{
    match x {
        Some(v) => {
            if a.dsl.is_some() {
                return false;
            }
            a.dsl = Some(v);
            true
        },
        None => true,
    }
}

/// The `cmd` step of a merge.
fn merge_cmd_into<'a>(a: &mut DefMeta<'a>, x: Option<(&'a str, SourceSpan)>, Ghost(bv): Ghost<DefMetaV>) -> (ok: bool)
    requires
        text_view(x) == bv.cmd,
    ensures
        ({
            let s = merge_cmd((old(a)@, None), bv);
            &&& final(a)@ == s.0
            &&& ok <==> s.1 is None
            &&& !ok ==> s.1 == Some("cmd"@)
        }),
{
    match x {
        Some(v) => {
            if a.cmd.is_some() {
                return false;
            }
            a.cmd = Some(v);
            true
        },
        None => true,
    }
}

/// The `since` step of a merge.
fn merge_since_into<'a>(a: &mut DefMeta<'a>, x: Option<(&'a str, SourceSpan)>, Ghost(bv): Ghost<DefMetaV>) -> (ok: bool)
    requires
        text_view(x) == bv.since,
    ensures
        ({
            let s = merge_since((old(a)@, None), bv);
            &&& final(a)@ == s.0
            &&& ok <==> s.1 is None
            &&& !ok ==> s.1 == Some("since"@)
        }),
{
    match x {
        Some(v) => {
            if a.since.is_some() {
                return false;
            }
            a.since = Some(v);
            true
        },
        None => true,
    }
}

/// The `name` step of a merge.
fn merge_name_into<'a>(a: &mut DefMeta<'a>, x: Option<(&'a str, SourceSpan)>, Ghost(bv): Ghost<DefMetaV>) -> (ok: bool)
    requires
        text_view(x) == bv.name,
    ensures
        ({
            let s = merge_name((old(a)@, None), bv);
            &&& final(a)@ == s.0
            &&& ok <==> s.1 is None
            &&& !ok ==> s.1 == Some("name"@)
        }),
{
    match x {
        Some(v) => {
            if a.name.is_some() {
                return false;
            }
            a.name = Some(v);
            true
        },
        None => true,
    }
}

/// The `this` step of a merge.
fn merge_this_into<'a>(a: &mut DefMeta<'a>, x: bool, Ghost(bv): Ghost<DefMetaV>) -> (ok: bool)
    requires
        x == bv.this,
    ensures
        ({
            let s = merge_this((old(a)@, None), bv);
            &&& final(a)@ == s.0
            &&& ok <==> s.1 is None
            &&& !ok ==> s.1 == Some("this"@)
        }),
{
    if x {
        if a.this {
            return false;
        }
        a.this = true;
    }
    true
}

/// The `enforce` step of a merge.
fn merge_enforce_into<'a>(a: &mut DefMeta<'a>, x: Vec<EnforceType>, Ghost(bv): Ghost<DefMetaV>) -> (ok: bool)
    requires
        x@ == bv.enforce,
    ensures
        ({
            let s = merge_enforce((old(a)@, None), bv);
            &&& final(a)@ == s.0
            &&& ok <==> s.1 is None
            &&& !ok ==> s.1 == Some("enforce"@)
        }),
{
    !merge_enforce_list(&mut a.enforce, x)
}

/// The `repr` step of a merge.
fn merge_repr_into<'a>(a: &mut DefMeta<'a>, x: Repr, Ghost(bv): Ghost<DefMetaV>) -> (ok: bool)
    requires
        x == bv.repr,
    ensures
        ({
            let s = merge_repr((old(a)@, None), bv);
            &&& final(a)@ == s.0
            &&& ok <==> s.1 is None
            &&& !ok ==> s.1 == Some("repr"@)
        }),
{
    if x != Repr::Default {
        if a.repr != Repr::Default {
            return false;
        }
        a.repr = x;
    }
    true
}

/// The `same_as` step of a merge.
fn merge_same_as_into<'a>(a: &mut DefMeta<'a>, x: Vec<TypeRef<'a>>, Ghost(bv): Ghost<DefMetaV>) -> (ok: bool)
    requires
        types_view(x@) == bv.same_as,
    ensures
        ({
            let s = merge_same_as((old(a)@, None), bv);
            &&& final(a)@ == s.0
            &&& ok <==> s.1 is None
            &&& !ok ==> s.1 == Some("same_as"@)
        }),
{
    let mut more = x;
    let ghost pre = a.same_as@;
    let ghost added = more@;
    a.same_as.append(&mut more);
    assert(types_view(a.same_as@) =~= types_view(pre) + types_view(added));
    true
}

/// The `limit` step of a merge.
fn merge_limit_into<'a>(a: &mut DefMeta<'a>, x: Option<(Literal<'a>, Literal<'a>)>, Ghost(bv): Ghost<DefMetaV>) -> (ok: bool)
    requires
        match x { Some((p, q)) => Some((p@, q@)), None => None::<((LiteralValueV, SourceSpan), (LiteralValueV, SourceSpan))> } == bv.limit,
    ensures
        ({
            let s = merge_limit((old(a)@, None), bv);
            &&& final(a)@ == s.0
            &&& ok <==> s.1 is None
            &&& !ok ==> s.1 == Some("limit"@)
        }),
{
    match x {
        Some(v) => {
            if a.limit.is_some() {
                return false;
            }
            a.limit = Some(v);
            true
        },
        None => true,
    }
}

/// The `raw_json` step of a merge.
fn merge_raw_json_into<'a>(a: &mut DefMeta<'a>, x: bool, Ghost(bv): Ghost<DefMetaV>) -> (ok: bool)
    requires
        x == bv.raw_json,
    ensures
        ({
            let s = merge_raw_json((old(a)@, None), bv);
            &&& final(a)@ == s.0
            &&& ok <==> s.1 is None
            &&& !ok ==> s.1 == Some("raw_json"@)
        }),
{
    if x {
        if a.raw_json {
            return false;
        }
        a.raw_json = true;
    }
    true
}

/// The `hint_id` step of a merge.
fn merge_hint_id_into<'a>(a: &mut DefMeta<'a>, x: Option<((&'a str, SourceSpan), (&'a str, SourceSpan))>, Ghost(bv): Ghost<DefMetaV>) -> (ok: bool)
    requires
        match x { Some((p, q)) => Some(((p.0@, p.1), (q.0@, q.1))), None => None::<((Seq<char>, SourceSpan), (Seq<char>, SourceSpan))> } == bv.hint_id,
    ensures
        ({
            let s = merge_hint_id((old(a)@, None), bv);
            &&& final(a)@ == s.0
            &&& ok <==> s.1 is None
            &&& !ok ==> s.1 == Some("hint_id"@)
        }),
{
    match x {
        Some(v) => {
            if a.hint_id.is_some() {
                return false;
            }
            a.hint_id = Some(v);
            true
        },
        None => true,
    }
}

/// The `span` step of a merge.
fn merge_span_into<'a>(a: &mut DefMeta<'a>, x: SourceSpan, Ghost(bv): Ghost<DefMetaV>) -> (ok: bool)
    requires
        x == bv.span,
    ensures
        ({
            let s = merge_span((old(a)@, None), bv);
            &&& final(a)@ == s.0
            &&& ok <==> s.1 is None
            &&& !ok ==> s.1 == Some("span"@)
        }),
{
    let min = if x.start < a.span.start { x } else { a.span };
    let max = if x.start >= a.span.start { x } else { a.span };
    a.span = SourceSpan { start: min.start, end: max.end };
    true
}

/// Merges the metadata `b` into `a` (see `merge_spec`): an attribute given in both fails
/// with a duplicate-metadata error at `b`'s span, leaving in `a` what was merged before it.
pub fn merge_def_meta<'a>(a: &mut DefMeta<'a>, b: DefMeta<'a>) -> (r: Result<(), Error>)
    ensures
        ({
            let (m, e) = merge_spec(old(a)@, b@);
            &&& final(a)@ == m
            &&& match e {
                None => r is Ok,
                Some(kind) => r matches Err(x) && x@ == (ErrorV::DuplicateMeta { kind, span: b.span }),
            }
        }),
{
    let ghost bv = b@;
    let ghost mut st: MergeState = (a@, None);
    let ghost target = merge_spec(a@, bv);
    let bspan = b.span;
    let DefMeta {
        builtin, inline, allow, nullable, hint, restrict, require, dsl, cmd, since, name, this,
        enforce, repr, same_as, limit, raw_json, hint_id, span,
    } = b;
    let ok = merge_builtin_into(a, builtin, Ghost(bv));
    proof { st = merge_step(0, st, bv); }
    if !ok {
        proof { lemma_merge_failed(1, st, bv); }
        return Err(Error::DuplicateMeta { kind: "builtin", span: bspan });
    }
    assert(a@ == st.0 && st.1 is None && target == merge_from(1, st, bv));
    let ok = merge_inline_into(a, inline, Ghost(bv));
    proof { st = merge_step(1, st, bv); }
    if !ok {
        proof { lemma_merge_failed(2, st, bv); }
        return Err(Error::DuplicateMeta { kind: "inline", span: bspan });
    }
    assert(a@ == st.0 && st.1 is None && target == merge_from(2, st, bv));
    let ok = merge_allow_into(a, allow, Ghost(bv));
    proof { st = merge_step(2, st, bv); }
    if !ok {
        proof { lemma_merge_failed(3, st, bv); }
        return Err(Error::DuplicateMeta { kind: "allow", span: bspan });
    }
    assert(a@ == st.0 && st.1 is None && target == merge_from(3, st, bv));
    let ok = merge_nullable_into(a, nullable, Ghost(bv));
    proof { st = merge_step(3, st, bv); }
    if !ok {
        proof { lemma_merge_failed(4, st, bv); }
        return Err(Error::DuplicateMeta { kind: "nullable", span: bspan });
    }
    assert(a@ == st.0 && st.1 is None && target == merge_from(4, st, bv));
    let ok = merge_hint_into(a, hint, Ghost(bv));
    proof { st = merge_step(4, st, bv); }
    if !ok {
        proof { lemma_merge_failed(5, st, bv); }
        return Err(Error::DuplicateMeta { kind: "hint", span: bspan });
    }
    assert(a@ == st.0 && st.1 is None && target == merge_from(5, st, bv));
    let ok = merge_restrict_into(a, restrict, Ghost(bv));
    proof { st = merge_step(5, st, bv); }
    if !ok {
        proof { lemma_merge_failed(6, st, bv); }
        return Err(Error::DuplicateMeta { kind: "restrict", span: bspan });
    }
    assert(a@ == st.0 && st.1 is None && target == merge_from(6, st, bv));
    let ok = merge_require_into(a, require, Ghost(bv));
    proof { st = merge_step(6, st, bv); }
    if !ok {
        proof { lemma_merge_failed(7, st, bv); }
        return Err(Error::DuplicateMeta { kind: "require", span: bspan });
    }
    assert(a@ == st.0 && st.1 is None && target == merge_from(7, st, bv));
    let ok = merge_dsl_into(a, dsl, Ghost(bv));
    proof { st = merge_step(7, st, bv); }
    if !ok {
        proof { lemma_merge_failed(8, st, bv); }
        return Err(Error::DuplicateMeta { kind: "dsl", span: bspan });
    }
    assert(a@ == st.0 && st.1 is None && target == merge_from(8, st, bv));
    let ok = merge_cmd_into(a, cmd, Ghost(bv));
    proof { st = merge_step(8, st, bv); }
    if !ok {
        proof { lemma_merge_failed(9, st, bv); }
        return Err(Error::DuplicateMeta { kind: "cmd", span: bspan });
    }
    assert(a@ == st.0 && st.1 is None && target == merge_from(9, st, bv));
    let ok = merge_since_into(a, since, Ghost(bv));
    proof { st = merge_step(9, st, bv); }
    if !ok {
        proof { lemma_merge_failed(10, st, bv); }
        return Err(Error::DuplicateMeta { kind: "since", span: bspan });
    }
    assert(a@ == st.0 && st.1 is None && target == merge_from(10, st, bv));
    let ok = merge_name_into(a, name, Ghost(bv));
    proof { st = merge_step(10, st, bv); }
    if !ok {
        proof { lemma_merge_failed(11, st, bv); }
        return Err(Error::DuplicateMeta { kind: "name", span: bspan });
    }
    assert(a@ == st.0 && st.1 is None && target == merge_from(11, st, bv));
    let ok = merge_this_into(a, this, Ghost(bv));
    proof { st = merge_step(11, st, bv); }
    if !ok {
        proof { lemma_merge_failed(12, st, bv); }
        return Err(Error::DuplicateMeta { kind: "this", span: bspan });
    }
    assert(a@ == st.0 && st.1 is None && target == merge_from(12, st, bv));
    let ok = merge_enforce_into(a, enforce, Ghost(bv));
    proof { st = merge_step(12, st, bv); }
    if !ok {
        proof { lemma_merge_failed(13, st, bv); }
        return Err(Error::DuplicateMeta { kind: "enforce", span: bspan });
    }
    assert(a@ == st.0 && st.1 is None && target == merge_from(13, st, bv));
    let ok = merge_repr_into(a, repr, Ghost(bv));
    proof { st = merge_step(13, st, bv); }
    if !ok {
        proof { lemma_merge_failed(14, st, bv); }
        return Err(Error::DuplicateMeta { kind: "repr", span: bspan });
    }
    assert(a@ == st.0 && st.1 is None && target == merge_from(14, st, bv));
    let ok = merge_same_as_into(a, same_as, Ghost(bv));
    proof { st = merge_step(14, st, bv); }
    if !ok {
        proof { lemma_merge_failed(15, st, bv); }
        return Err(Error::DuplicateMeta { kind: "same_as", span: bspan });
    }
    assert(a@ == st.0 && st.1 is None && target == merge_from(15, st, bv));
    let ok = merge_limit_into(a, limit, Ghost(bv));
    proof { st = merge_step(15, st, bv); }
    if !ok {
        proof { lemma_merge_failed(16, st, bv); }
        return Err(Error::DuplicateMeta { kind: "limit", span: bspan });
    }
    assert(a@ == st.0 && st.1 is None && target == merge_from(16, st, bv));
    let ok = merge_raw_json_into(a, raw_json, Ghost(bv));
    proof { st = merge_step(16, st, bv); }
    if !ok {
        proof { lemma_merge_failed(17, st, bv); }
        return Err(Error::DuplicateMeta { kind: "raw_json", span: bspan });
    }
    assert(a@ == st.0 && st.1 is None && target == merge_from(17, st, bv));
    let ok = merge_hint_id_into(a, hint_id, Ghost(bv));
    proof { st = merge_step(17, st, bv); }
    if !ok {
        proof { lemma_merge_failed(18, st, bv); }
        return Err(Error::DuplicateMeta { kind: "hint_id", span: bspan });
    }
    assert(a@ == st.0 && st.1 is None && target == merge_from(18, st, bv));
    let ok = merge_span_into(a, span, Ghost(bv));
    proof { st = merge_step(18, st, bv); }
    if !ok {
        proof { lemma_merge_failed(19, st, bv); }
        return Err(Error::DuplicateMeta { kind: "span", span: bspan });
    }
    assert(a@ == st.0 && st.1 is None && target == merge_from(19, st, bv));
    Ok(())
}

} // verus!
