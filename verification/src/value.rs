//! The fields of a definition, by name.
//!
//! A definition is a list of named [`Value`]s. The kind of a value decides how
//! a statement about it is read; a list, a map and a choice also hold the
//! values that new elements start from.

use vstd::prelude::*;

use crate::order;
use crate::order::{sort, Ranked};
use crate::single::Single;
use crate::strings::same;
use crate::text::base;

verus! {

broadcast use base::group_views;

/// A field that holds a single datum.
#[derive(Debug)]
pub enum Scalar {
    Single(Single),
    I8(i8),
    I16(i16),
    I32(i32),
    U8(u8),
    U16(u16),
    U32(u32),
    U64(u64),
    Bool(bool),
    /// A string.
    Str(String),
    /// A string that is stored wide.
    WStr(String),
    /// A string that is stored as bytes.
    PString(Vec<u8>),
    /// One of the `allowed` values.
    Enum { allowed: Vec<i32>, value: i32 },
    Flags(i32),
    /// The offset of a string in the table of names, or -1.
    DefString(i32),
    /// The index of a definition.
    DefIndex(i32),
}

/// A field of a definition.
#[derive(Debug)]
pub enum Value {
    Scalar(Scalar),
    List(List),
    Mapping(Mapping),
    Struct(Compound),
    Variant(Choice),
    /// A field of a kind that no statement can set.
    Complex,
    /// A fixed array, which no statement can set.
    Array,
}

/// A list; a new element starts as a copy of `element`.
#[derive(Debug)]
pub struct List {
    pub element: Box<Value>,
    pub items: Vec<Value>,
}

/// A map; a new entry starts from copies of `key` and `value`. The entries of an
/// `ordered` map ascend by key, those of another stand in the order in which
/// their keys were first set.
#[derive(Debug)]
pub struct Mapping {
    pub ordered: bool,
    pub key: Box<Value>,
    pub value: Box<Value>,
    pub entries: Vec<Pair>,
}

#[derive(Debug)]
pub struct Pair {
    pub key: Value,
    pub value: Value,
}

/// A compound of members. The members of a `named` compound are set by
/// statements of any form, like the fields of a definition.
#[derive(Debug)]
pub struct Compound {
    pub class: String,
    pub named: bool,
    pub members: Vec<Member>,
}

#[derive(Debug)]
pub struct Member {
    pub name: String,
    pub value: Value,
}

/// One of several `cases`, selected by `tag`.
#[derive(Debug)]
pub struct Choice {
    pub class: String,
    pub tag: u32,
    pub members: Vec<Member>,
    pub cases: Vec<Case>,
}

/// What the members of a case start from.
#[derive(Debug)]
pub struct Case {
    pub tag: u32,
    pub members: Vec<Member>,
}

// ── Views ────────────────────────────────────────────────────────────────────

/// What a [`Scalar`] holds.
pub enum ScalarView {
    Single(Single),
    I8(i8),
    I16(i16),
    I32(i32),
    U8(u8),
    U16(u16),
    U32(u32),
    U64(u64),
    Bool(bool),
    Str(Seq<char>),
    WStr(Seq<char>),
    PString(Seq<u8>),
    Enum { allowed: Seq<i32>, value: i32 },
    Flags(i32),
    DefString(i32),
    DefIndex(i32),
}

/// What a [`Value`] holds.
pub enum ValueView {
    Scalar(ScalarView),
    List(ListView),
    Mapping(MapView),
    Struct(StructView),
    Variant(ChoiceView),
    Complex,
    Array,
}

/// What a [`List`] holds.
pub struct ListView {
    pub element: Box<ValueView>,
    pub items: Seq<ValueView>,
}

/// What a [`Mapping`] holds.
pub struct MapView {
    pub ordered: bool,
    pub key: Box<ValueView>,
    pub value: Box<ValueView>,
    pub entries: Seq<PairView>,
}

/// What a [`Pair`] holds.
pub struct PairView {
    pub key: ValueView,
    pub value: ValueView,
}

/// What a [`Compound`] holds.
pub struct StructView {
    pub class: Seq<char>,
    pub named: bool,
    pub members: Seq<MemberView>,
}

/// What a [`Member`] holds.
pub struct MemberView {
    pub name: Seq<char>,
    pub value: ValueView,
}

/// What a [`Choice`] holds.
pub struct ChoiceView {
    pub class: Seq<char>,
    pub tag: u32,
    pub members: Seq<MemberView>,
    pub cases: Seq<CaseView>,
}

/// What a [`Case`] holds.
pub struct CaseView {
    pub tag: u32,
    pub members: Seq<MemberView>,
}

impl View for Scalar {
    type V = ScalarView;

    open spec fn view(&self) -> ScalarView {
        match *self {
            Scalar::Single(x) => ScalarView::Single(x),
            Scalar::I8(n) => ScalarView::I8(n),
            Scalar::I16(n) => ScalarView::I16(n),
            Scalar::I32(n) => ScalarView::I32(n),
            Scalar::U8(n) => ScalarView::U8(n),
            Scalar::U16(n) => ScalarView::U16(n),
            Scalar::U32(n) => ScalarView::U32(n),
            Scalar::U64(n) => ScalarView::U64(n),
            Scalar::Bool(b) => ScalarView::Bool(b),
            Scalar::Str(s) => ScalarView::Str(s@),
            Scalar::WStr(s) => ScalarView::WStr(s@),
            Scalar::PString(b) => ScalarView::PString(b@),
            Scalar::Enum { allowed, value } => ScalarView::Enum { allowed: allowed@, value },
            Scalar::Flags(n) => ScalarView::Flags(n),
            Scalar::DefString(n) => ScalarView::DefString(n),
            Scalar::DefIndex(n) => ScalarView::DefIndex(n),
        }
    }
}

/// The view of some members, by recursion over their values.
pub open spec fn members_view(v: Seq<Member>) -> Seq<MemberView>
    decreases v,
{
    Seq::new(
        v.len(),
        |i: int|
            if 0 <= i < v.len() {
                MemberView { name: v[i].name@, value: value_view(v[i].value) }
            } else {
                arbitrary()
            },
    )
}

/// The view of a value, by recursion over its parts.
pub open spec fn value_view(v: Value) -> ValueView
    decreases v,
{
    match v {
        Value::Scalar(s) => ValueView::Scalar(s@),
        Value::List(l) => ValueView::List(
            ListView {
                element: Box::new(value_view(*l.element)),
                items: Seq::new(
                    l.items@.len(),
                    |i: int|
                        if 0 <= i < l.items@.len() {
                            value_view(l.items@[i])
                        } else {
                            arbitrary()
                        },
                ),
            },
        ),
        Value::Mapping(m) => ValueView::Mapping(
            MapView {
                ordered: m.ordered,
                key: Box::new(value_view(*m.key)),
                value: Box::new(value_view(*m.value)),
                entries: Seq::new(
                    m.entries@.len(),
                    |i: int|
                        if 0 <= i < m.entries@.len() {
                            PairView {
                                key: value_view(m.entries@[i].key),
                                value: value_view(m.entries@[i].value),
                            }
                        } else {
                            arbitrary()
                        },
                ),
            },
        ),
        Value::Struct(s) => ValueView::Struct(
            StructView {
                class: s.class@,
                named: s.named,
                members: members_view(s.members@),
            },
        ),
        Value::Variant(c) => ValueView::Variant(
            ChoiceView {
                class: c.class@,
                tag: c.tag,
                members: members_view(c.members@),
                cases: Seq::new(
                    c.cases@.len(),
                    |i: int|
                        if 0 <= i < c.cases@.len() {
                            CaseView {
                                tag: c.cases@[i].tag,
                                members: members_view(c.cases@[i].members@),
                            }
                        } else {
                            arbitrary()
                        },
                ),
            },
        ),
        Value::Complex => ValueView::Complex,
        Value::Array => ValueView::Array,
    }
}

impl View for Value {
    type V = ValueView;

    open spec fn view(&self) -> ValueView {
        value_view(*self)
    }
}

impl View for Member {
    type V = MemberView;

    open spec fn view(&self) -> MemberView {
        MemberView { name: self.name@, value: self.value@ }
    }
}

impl View for Pair {
    type V = PairView;

    open spec fn view(&self) -> PairView {
        PairView { key: self.key@, value: self.value@ }
    }
}

impl View for List {
    type V = ListView;

    open spec fn view(&self) -> ListView {
        ListView { element: Box::new(self.element@), items: base::views(self.items@) }
    }
}

impl View for Mapping {
    type V = MapView;

    open spec fn view(&self) -> MapView {
        MapView {
            ordered: self.ordered,
            key: Box::new(self.key@),
            value: Box::new(self.value@),
            entries: base::views(self.entries@),
        }
    }
}

impl View for Compound {
    type V = StructView;

    open spec fn view(&self) -> StructView {
        StructView {
            class: self.class@,
            named: self.named,
            members: base::views(self.members@),
        }
    }
}

impl View for Case {
    type V = CaseView;

    open spec fn view(&self) -> CaseView {
        CaseView { tag: self.tag, members: base::views(self.members@) }
    }
}

impl View for Choice {
    type V = ChoiceView;

    open spec fn view(&self) -> ChoiceView {
        ChoiceView {
            class: self.class@,
            tag: self.tag,
            members: base::views(self.members@),
            cases: base::views(self.cases@),
        }
    }
}

proof fn lemma_members_view(v: Seq<Member>)
    ensures
        members_view(v) == base::views(v),
{
    assert(members_view(v) =~= base::views(v));
}

/// The view of a value in terms of the views of its parts.
pub proof fn lemma_value_view(v: Value)
    ensures
        match v {
            Value::Scalar(s) => v@ == ValueView::Scalar(s@),
            Value::List(l) => v@ == ValueView::List(l@),
            Value::Mapping(m) => v@ == ValueView::Mapping(m@),
            Value::Struct(s) => v@ == ValueView::Struct(s@),
            Value::Variant(c) => v@ == ValueView::Variant(c@),
            Value::Complex => v@ == ValueView::Complex,
            Value::Array => v@ == ValueView::Array,
        },
{
    match v {
        Value::List(l) => {
            assert(v@->List_0.items =~= base::views(l.items@));
        },
        Value::Mapping(m) => {
            assert(v@->Mapping_0.entries =~= base::views(m.entries@));
        },
        Value::Struct(s) => {
            lemma_members_view(s.members@);
        },
        Value::Variant(c) => {
            lemma_members_view(c.members@);
            assert forall|i: int| 0 <= i < c.cases@.len() implies v@->Variant_0.cases[i]
                == base::views(c.cases@)[i] by {
                lemma_members_view(c.cases@[i].members@);
            }
            assert(v@->Variant_0.cases =~= base::views(c.cases@));
        },
        _ => {},
    }
}

// ── Copies ───────────────────────────────────────────────────────────────────

/// A copy of some numbers.
pub fn copy_numbers(v: &Vec<i32>) -> (r: Vec<i32>)
    ensures
        r@ == v@,
{
    let mut out: Vec<i32> = Vec::new();
    let mut i: usize = 0;
    while i < v.len()
        invariant
            i <= v@.len(),
            out@ == v@.take(i as int),
        decreases v@.len() - i,
    {
        out.push(v[i]);
        assert(v@.take(i as int + 1) =~= v@.take(i as int).push(v@[i as int]));
        i = i + 1;
    }
    assert(v@.take(v@.len() as int) =~= v@);
    out
}

/// A copy of some bytes.
pub fn copy_bytes(v: &[u8]) -> (r: Vec<u8>)
    ensures
        r@ == v@,
{
    let mut out: Vec<u8> = Vec::new();
    let mut i: usize = 0;
    while i < v.len()
        invariant
            i <= v@.len(),
            out@ == v@.take(i as int),
        decreases v@.len() - i,
    {
        out.push(v[i]);
        assert(v@.take(i as int + 1) =~= v@.take(i as int).push(v@[i as int]));
        i = i + 1;
    }
    assert(v@.take(v@.len() as int) =~= v@);
    out
}

impl Clone for Scalar {
    fn clone(&self) -> (r: Self)
        ensures
            r@ == self@,
    {
        match self {
            Scalar::Single(x) => Scalar::Single(*x),
            Scalar::I8(n) => Scalar::I8(*n),
            Scalar::I16(n) => Scalar::I16(*n),
            Scalar::I32(n) => Scalar::I32(*n),
            Scalar::U8(n) => Scalar::U8(*n),
            Scalar::U16(n) => Scalar::U16(*n),
            Scalar::U32(n) => Scalar::U32(*n),
            Scalar::U64(n) => Scalar::U64(*n),
            Scalar::Bool(b) => Scalar::Bool(*b),
            Scalar::Str(s) => Scalar::Str(s.clone()),
            Scalar::WStr(s) => Scalar::WStr(s.clone()),
            Scalar::PString(b) => Scalar::PString(copy_bytes(b.as_slice())),
            Scalar::Enum { allowed, value } => Scalar::Enum {
                allowed: copy_numbers(allowed),
                value: *value,
            },
            Scalar::Flags(n) => Scalar::Flags(*n),
            Scalar::DefString(n) => Scalar::DefString(*n),
            Scalar::DefIndex(n) => Scalar::DefIndex(*n),
        }
    }
}

/// A copy of some members.
pub fn copy_members(v: &Vec<Member>) -> (r: Vec<Member>)
    ensures
        base::views(r@) == base::views(v@),
    decreases v,
{
    let mut out: Vec<Member> = Vec::new();
    let mut i: usize = 0;
    while i < v.len()
        invariant
            i <= v@.len(),
            base::views(out@) == base::views(v@).take(i as int),
        decreases v@.len() - i,
    {
        let m = &v[i];
        out.push(Member { name: m.name.clone(), value: m.value.clone() });
        assert(base::views(v@).take(i as int + 1) =~= base::views(v@).take(i as int).push(
            v@[i as int]@,
        ));
        i = i + 1;
    }
    assert(base::views(v@).take(v@.len() as int) =~= base::views(v@));
    out
}

/// A copy of some values.
pub fn copy_values(v: &Vec<Value>) -> (r: Vec<Value>)
    ensures
        base::views(r@) == base::views(v@),
    decreases v,
{
    let mut out: Vec<Value> = Vec::new();
    let mut i: usize = 0;
    while i < v.len()
        invariant
            i <= v@.len(),
            base::views(out@) == base::views(v@).take(i as int),
        decreases v@.len() - i,
    {
        out.push(v[i].clone());
        assert(base::views(v@).take(i as int + 1) =~= base::views(v@).take(i as int).push(
            v@[i as int]@,
        ));
        i = i + 1;
    }
    assert(base::views(v@).take(v@.len() as int) =~= base::views(v@));
    out
}

fn copy_pairs(v: &Vec<Pair>) -> (r: Vec<Pair>)
    ensures
        base::views(r@) == base::views(v@),
    decreases v,
{
    let mut out: Vec<Pair> = Vec::new();
    let mut i: usize = 0;
    while i < v.len()
        invariant
            i <= v@.len(),
            base::views(out@) == base::views(v@).take(i as int),
        decreases v@.len() - i,
    {
        let p = &v[i];
        out.push(Pair { key: p.key.clone(), value: p.value.clone() });
        assert(base::views(v@).take(i as int + 1) =~= base::views(v@).take(i as int).push(
            v@[i as int]@,
        ));
        i = i + 1;
    }
    assert(base::views(v@).take(v@.len() as int) =~= base::views(v@));
    out
}

fn copy_cases(v: &Vec<Case>) -> (r: Vec<Case>)
    ensures
        base::views(r@) == base::views(v@),
    decreases v,
{
    let mut out: Vec<Case> = Vec::new();
    let mut i: usize = 0;
    while i < v.len()
        invariant
            i <= v@.len(),
            base::views(out@) == base::views(v@).take(i as int),
        decreases v@.len() - i,
    {
        let c = &v[i];
        out.push(Case { tag: c.tag, members: copy_members(&c.members) });
        assert(base::views(v@).take(i as int + 1) =~= base::views(v@).take(i as int).push(
            v@[i as int]@,
        ));
        i = i + 1;
    }
    assert(base::views(v@).take(v@.len() as int) =~= base::views(v@));
    out
}

impl Clone for Value {
    fn clone(&self) -> (r: Self)
        ensures
            r@ == self@,
        decreases self,
    {
        let r = match self {
            Value::Scalar(s) => Value::Scalar(s.clone()),
            Value::List(l) => Value::List(
                List {
                    element: Box::new((&*l.element).clone()),
                    items: copy_values(&l.items),
                },
            ),
            Value::Mapping(m) => Value::Mapping(
                Mapping {
                    ordered: m.ordered,
                    key: Box::new((&*m.key).clone()),
                    value: Box::new((&*m.value).clone()),
                    entries: copy_pairs(&m.entries),
                },
            ),
            Value::Struct(s) => Value::Struct(
                Compound {
                    class: s.class.clone(),
                    named: s.named,
                    members: copy_members(&s.members),
                },
            ),
            Value::Variant(c) => Value::Variant(
                Choice {
                    class: c.class.clone(),
                    tag: c.tag,
                    members: copy_members(&c.members),
                    cases: copy_cases(&c.cases),
                },
            ),
            Value::Complex => Value::Complex,
            Value::Array => Value::Array,
        };
        proof {
            lemma_value_view(*self);
            lemma_value_view(r);
        }
        r
    }
}

// ── Equality ─────────────────────────────────────────────────────────────────

fn same_numbers(a: &Vec<i32>, b: &Vec<i32>) -> (r: bool)
    ensures
        r == (a@ == b@),
{
    if a.len() != b.len() {
        return false;
    }
    let mut i: usize = 0;
    while i < a.len()
        invariant
            i <= a@.len(),
            a@.len() == b@.len(),
            forall|j: int| 0 <= j < i ==> a@[j] == b@[j],
        decreases a@.len() - i,
    {
        if a[i] != b[i] {
            return false;
        }
        i = i + 1;
    }
    assert(a@ =~= b@);
    true
}

fn same_bytes(a: &Vec<u8>, b: &Vec<u8>) -> (r: bool)
    ensures
        r == (a@ == b@),
{
    if a.len() != b.len() {
        return false;
    }
    let mut i: usize = 0;
    while i < a.len()
        invariant
            i <= a@.len(),
            a@.len() == b@.len(),
            forall|j: int| 0 <= j < i ==> a@[j] == b@[j],
        decreases a@.len() - i,
    {
        if a[i] != b[i] {
            return false;
        }
        i = i + 1;
    }
    assert(a@ =~= b@);
    true
}

/// Whether two scalars are of one kind and hold the same.
pub fn same_scalar(a: &Scalar, b: &Scalar) -> (r: bool)
    ensures
        r == (a@ == b@),
{
    match (a, b) {
        (Scalar::Single(x), Scalar::Single(y)) => x.bits == y.bits,
        (Scalar::I8(x), Scalar::I8(y)) => *x == *y,
        (Scalar::I16(x), Scalar::I16(y)) => *x == *y,
        (Scalar::I32(x), Scalar::I32(y)) => *x == *y,
        (Scalar::U8(x), Scalar::U8(y)) => *x == *y,
        (Scalar::U16(x), Scalar::U16(y)) => *x == *y,
        (Scalar::U32(x), Scalar::U32(y)) => *x == *y,
        (Scalar::U64(x), Scalar::U64(y)) => *x == *y,
        (Scalar::Bool(x), Scalar::Bool(y)) => *x == *y,
        (Scalar::Str(x), Scalar::Str(y)) => same(x.as_str(), y.as_str()),
        (Scalar::WStr(x), Scalar::WStr(y)) => same(x.as_str(), y.as_str()),
        (Scalar::PString(x), Scalar::PString(y)) => same_bytes(x, y),
        (Scalar::Enum { allowed: v, value: x }, Scalar::Enum { allowed: w, value: y }) => *x == *y
            && same_numbers(v, w),
        (Scalar::Flags(x), Scalar::Flags(y)) => *x == *y,
        (Scalar::DefString(x), Scalar::DefString(y)) => *x == *y,
        (Scalar::DefIndex(x), Scalar::DefIndex(y)) => *x == *y,
        _ => false,
    }
}

fn same_members(a: &Vec<Member>, b: &Vec<Member>) -> (r: bool)
    ensures
        r == (base::views(a@) == base::views(b@)),
    decreases a,
{
    if a.len() != b.len() {
        assert(base::views(a@).len() != base::views(b@).len());
        return false;
    }
    let mut i: usize = 0;
    while i < a.len()
        invariant
            i <= a@.len(),
            a@.len() == b@.len(),
            forall|j: int| 0 <= j < i ==> base::views(a@)[j] == base::views(b@)[j],
        decreases a@.len() - i,
    {
        assert(base::views(a@)[i as int] == a@[i as int]@);
        assert(base::views(b@)[i as int] == b@[i as int]@);
        if !same(a[i].name.as_str(), b[i].name.as_str()) || !same_value(&a[i].value, &b[i].value) {
            return false;
        }
        i = i + 1;
    }
    assert(base::views(a@) =~= base::views(b@));
    true
}

fn same_values(a: &Vec<Value>, b: &Vec<Value>) -> (r: bool)
    ensures
        r == (base::views(a@) == base::views(b@)),
    decreases a,
{
    if a.len() != b.len() {
        assert(base::views(a@).len() != base::views(b@).len());
        return false;
    }
    let mut i: usize = 0;
    while i < a.len()
        invariant
            i <= a@.len(),
            a@.len() == b@.len(),
            forall|j: int| 0 <= j < i ==> base::views(a@)[j] == base::views(b@)[j],
        decreases a@.len() - i,
    {
        assert(base::views(a@)[i as int] == a@[i as int]@);
        assert(base::views(b@)[i as int] == b@[i as int]@);
        if !same_value(&a[i], &b[i]) {
            return false;
        }
        i = i + 1;
    }
    assert(base::views(a@) =~= base::views(b@));
    true
}

fn same_pairs(a: &Vec<Pair>, b: &Vec<Pair>) -> (r: bool)
    ensures
        r == (base::views(a@) == base::views(b@)),
    decreases a,
{
    if a.len() != b.len() {
        assert(base::views(a@).len() != base::views(b@).len());
        return false;
    }
    let mut i: usize = 0;
    while i < a.len()
        invariant
            i <= a@.len(),
            a@.len() == b@.len(),
            forall|j: int| 0 <= j < i ==> base::views(a@)[j] == base::views(b@)[j],
        decreases a@.len() - i,
    {
        assert(base::views(a@)[i as int] == a@[i as int]@);
        assert(base::views(b@)[i as int] == b@[i as int]@);
        if !same_value(&a[i].key, &b[i].key) || !same_value(&a[i].value, &b[i].value) {
            return false;
        }
        i = i + 1;
    }
    assert(base::views(a@) =~= base::views(b@));
    true
}

fn same_cases(a: &Vec<Case>, b: &Vec<Case>) -> (r: bool)
    ensures
        r == (base::views(a@) == base::views(b@)),
    decreases a,
{
    if a.len() != b.len() {
        assert(base::views(a@).len() != base::views(b@).len());
        return false;
    }
    let mut i: usize = 0;
    while i < a.len()
        invariant
            i <= a@.len(),
            a@.len() == b@.len(),
            forall|j: int| 0 <= j < i ==> base::views(a@)[j] == base::views(b@)[j],
        decreases a@.len() - i,
    {
        assert(base::views(a@)[i as int] == a@[i as int]@);
        assert(base::views(b@)[i as int] == b@[i as int]@);
        if a[i].tag != b[i].tag || !same_members(&a[i].members, &b[i].members) {
            return false;
        }
        i = i + 1;
    }
    assert(base::views(a@) =~= base::views(b@));
    true
}

/// Whether two values are of one kind and hold the same.
pub fn same_value(a: &Value, b: &Value) -> (r: bool)
    ensures
        r == (a@ == b@),
    decreases a,
{
    proof {
        lemma_value_view(*a);
        lemma_value_view(*b);
    }
    match (a, b) {
        (Value::Scalar(x), Value::Scalar(y)) => same_scalar(x, y),
        (Value::List(x), Value::List(y)) => same_value(&x.element, &y.element) && same_values(
            &x.items,
            &y.items,
        ),
        (Value::Mapping(x), Value::Mapping(y)) => x.ordered == y.ordered && same_value(
            &x.key,
            &y.key,
        ) && same_value(&x.value, &y.value) && same_pairs(&x.entries, &y.entries),
        (Value::Struct(x), Value::Struct(y)) => same(x.class.as_str(), y.class.as_str()) && x.named
            == y.named && same_members(&x.members, &y.members),
        (Value::Variant(x), Value::Variant(y)) => same(x.class.as_str(), y.class.as_str()) && x.tag
            == y.tag && same_members(&x.members, &y.members) && same_cases(&x.cases, &y.cases),
        (Value::Complex, Value::Complex) => true,
        (Value::Array, Value::Array) => true,
        _ => false,
    }
}

// ── Maps ─────────────────────────────────────────────────────────────────────

/// The number that a scalar stands for in an order; 0 for what is no number.
pub open spec fn number(v: ValueView) -> int {
    match v {
        ValueView::Scalar(s) => match s {
            ScalarView::I8(n) => n as int,
            ScalarView::I16(n) => n as int,
            ScalarView::I32(n) => n as int,
            ScalarView::U8(n) => n as int,
            ScalarView::U16(n) => n as int,
            ScalarView::U32(n) => n as int,
            ScalarView::U64(n) => n as int,
            ScalarView::Enum { value, .. } => value as int,
            ScalarView::Flags(n) => n as int,
            ScalarView::DefString(n) => n as int,
            ScalarView::DefIndex(n) => n as int,
            _ => 0,
        },
        _ => 0,
    }
}

/// The number that a value stands for in an order.
pub fn number_of(v: &Value) -> (r: i128)
    ensures
        r == number(v@),
{
    proof {
        lemma_value_view(*v);
    }
    match v {
        Value::Scalar(s) => match s {
            Scalar::I8(n) => *n as i128,
            Scalar::I16(n) => *n as i128,
            Scalar::I32(n) => *n as i128,
            Scalar::U8(n) => *n as i128,
            Scalar::U16(n) => *n as i128,
            Scalar::U32(n) => *n as i128,
            Scalar::U64(n) => *n as i128,
            Scalar::Enum { value, .. } => *value as i128,
            Scalar::Flags(n) => *n as i128,
            Scalar::DefString(n) => *n as i128,
            Scalar::DefIndex(n) => *n as i128,
            _ => 0,
        },
        _ => 0,
    }
}

/// The first place at or behind `k` with the given key; the length if there is none.
pub open spec fn place_of(entries: Seq<PairView>, key: ValueView, k: int) -> int
    decreases entries.len() - k,
{
    if k < 0 || k >= entries.len() || entries[k].key == key {
        k
    } else {
        place_of(entries, key, k + 1)
    }
}

/// The first place at or behind `k` with a greater key; the length if there is none.
pub open spec fn place_above(entries: Seq<PairView>, key: ValueView, k: int) -> int
    decreases entries.len() - k,
{
    if k < 0 || k >= entries.len() || number(entries[k].key) > number(key) {
        k
    } else {
        place_above(entries, key, k + 1)
    }
}

impl MapView {
    /// The map with `key` set to `value`: what was set before is replaced, a new key
    /// takes its place in the order of the map.
    pub open spec fn put(self, key: ValueView, value: ValueView) -> MapView {
        let i = place_of(self.entries, key, 0);
        let entries = if i < self.entries.len() {
            self.entries.update(i, PairView { key, value })
        } else if self.ordered {
            self.entries.insert(place_above(self.entries, key, 0), PairView { key, value })
        } else {
            self.entries.push(PairView { key, value })
        };
        MapView { entries, ..self }
    }
}

fn place_for(entries: &Vec<Pair>, key: &Value) -> (r: usize)
    ensures
        r <= entries@.len(),
        r == place_above(base::views(entries@), key@, 0),
{
    let n: i128 = number_of(key);
    let ghost view = base::views(entries@);
    let mut k: usize = 0;
    while k < entries.len() && number_of(&entries[k].key) <= n
        invariant
            k <= entries@.len(),
            n == number(key@),
            view == base::views(entries@),
            place_above(view, key@, 0) == place_above(view, key@, k as int),
        decreases entries@.len() - k,
    {
        assert(view[k as int] == entries@[k as int]@);
        k = k + 1;
    }
    proof {
        if k < entries@.len() {
            assert(view[k as int] == entries@[k as int]@);
        }
    }
    k
}

impl Mapping {
    /// Sets `key` to `value`.
    pub fn put(&mut self, key: Value, value: Value)
        ensures
            final(self)@ == old(self)@.put(key@, value@),
    {
        let ghost before = self@.entries;
        let mut i: usize = 0;
        while i < self.entries.len()
            invariant
                i <= self.entries@.len(),
                *self == *old(self),
                before == base::views(self.entries@),
                place_of(before, key@, 0) == place_of(before, key@, i as int),
            decreases self.entries@.len() - i,
        {
            assert(before[i as int] == self.entries@[i as int]@);
            if same_value(&self.entries[i].key, &key) {
                let ghost pair = PairView { key: key@, value: value@ };
                self.entries.set(i, Pair { key, value });
                assert(base::views(self.entries@) =~= before.update(i as int, pair));
                return;
            }
            i = i + 1;
        }
        if !self.ordered {
            self.entries.push(Pair { key, value });
            return;
        }
        let k = place_for(&self.entries, &key);
        let ghost pair = PairView { key: key@, value: value@ };
        self.entries.insert(k, Pair { key, value });
        assert(base::views(self.entries@) =~= before.insert(k as int, pair));
    }
}

// ── Lists ────────────────────────────────────────────────────────────────────

impl ListView {
    /// The list with elements added until there are at least `n`.
    pub open spec fn grown(self, n: int) -> ListView {
        if n <= self.items.len() {
            self
        } else {
            ListView {
                items: self.items + Seq::new(
                    (n - self.items.len()) as nat,
                    |i: int| *self.element,
                ),
                ..self
            }
        }
    }
}

impl List {
    /// Adds elements until there are at least `n`.
    pub fn grow(&mut self, n: usize)
        ensures
            final(self)@ == old(self)@.grown(n as int),
    {
        let ghost before = self@;
        while self.items.len() < n
            invariant
                before == old(self)@,
                self.items@.len() <= n || self@ == before,
                self.items@.len() >= before.items.len(),
                self@ == before.grown(self.items@.len() as int),
            decreases n - self.items@.len(),
        {
            let ghost k = self.items@.len() as int;
            let x = (&*self.element).clone();
            self.items.push(x);
            assert(self@.items =~= before.grown(k + 1).items);
        }
        assert(self@.items =~= before.grown(n as int).items);
    }
}

// ── Members ──────────────────────────────────────────────────────────────────

/// The first place at or behind `k` with the given name; the length if there is
/// none.
pub open spec fn member_place(v: Seq<MemberView>, name: Seq<char>, k: int) -> int
    decreases v.len() - k,
{
    if k < 0 || k >= v.len() || v[k].name == name {
        k
    } else {
        member_place(v, name, k + 1)
    }
}

/// The value of the member `name`.
pub open spec fn member(v: Seq<MemberView>, name: Seq<char>) -> Option<ValueView> {
    let i = member_place(v, name, 0);
    if i < v.len() {
        Some(v[i].value)
    } else {
        None
    }
}

/// The members with the one called `name` set to `value`, where there is one.
pub open spec fn with_member(v: Seq<MemberView>, name: Seq<char>, value: ValueView) -> Seq<
    MemberView,
> {
    let i = member_place(v, name, 0);
    if i < v.len() {
        v.update(i, MemberView { name: v[i].name, value })
    } else {
        v
    }
}

/// The place of the member `name`.
pub fn find_member(v: &Vec<Member>, name: &str) -> (r: Option<usize>)
    ensures
        match r {
            Some(i) => i < v@.len() && i == member_place(base::views(v@), name@, 0),
            None => member_place(base::views(v@), name@, 0) == v@.len(),
        },
{
    let mut i: usize = 0;
    let ghost view = base::views(v@);
    while i < v.len()
        invariant
            i <= v@.len(),
            view == base::views(v@),
            member_place(view, name@, 0) == member_place(view, name@, i as int),
        decreases v@.len() - i,
    {
        assert(view[i as int] == v@[i as int]@);
        if same(v[i].name.as_str(), name) {
            return Some(i);
        }
        i = i + 1;
    }
    None
}

/// Sets the member `name`, where there is one.
pub fn set_member(v: &mut Vec<Member>, name: &str, value: Value)
    ensures
        base::views(final(v)@) == with_member(base::views(old(v)@), name@, value@),
{
    let ghost before = base::views(v@);
    match find_member(v, name) {
        Some(i) => {
            assert(before[i as int] == v@[i as int]@);
            let ghost new = value@;
            v[i].value = value;
            assert(base::views(v@) =~= before.update(
                i as int,
                MemberView { name: before[i as int].name, value: new },
            ));
        },
        None => {},
    }
}

/// The fields of a definition.
#[derive(Debug)]
pub struct Record {
    pub fields: Vec<Member>,
}

impl View for Record {
    type V = Seq<MemberView>;

    open spec fn view(&self) -> Seq<MemberView> {
        base::views(self.fields@)
    }
}

impl Clone for Record {
    fn clone(&self) -> (r: Self)
        ensures
            r@ == self@,
    {
        Record { fields: copy_members(&self.fields) }
    }
}

// ── Order ────────────────────────────────────────────────────────────────────

impl Ranked for Value {
    open spec fn rank(v: ValueView) -> (int, int) {
        (number(v), 0)
    }

    fn rank_of(&self) -> (r: (i128, i128)) {
        (number_of(self), 0)
    }
}

/// Entries are ordered by their keys.
impl Ranked for Pair {
    open spec fn rank(v: PairView) -> (int, int) {
        (number(v.key), 0)
    }

    fn rank_of(&self) -> (r: (i128, i128)) {
        (number_of(&self.key), 0)
    }
}

impl MapView {
    /// The map with its entries in ascending order of key; entries with equal keys
    /// stay in the order in which they came.
    pub open spec fn sorted(self) -> MapView {
        MapView { entries: order::in_order::<Pair>(self.entries), ..self }
    }
}

impl Mapping {
    /// Puts the entries in ascending order of key.
    pub fn sort(&mut self)
        ensures
            final(self)@ == old(self)@.sorted(),
    {
        let mut entries: Vec<Pair> = Vec::new();
        std::mem::swap(&mut entries, &mut self.entries);
        self.entries = sort(entries);
    }
}

// ── Laws ─────────────────────────────────────────────────────────────────────

/// Whether no key comes twice.
pub open spec fn distinct_keys(entries: Seq<PairView>) -> bool {
    forall|i: int, j: int| 0 <= i < j < entries.len() ==> entries[i].key != entries[j].key
}

/// What a map holds for a key.
pub open spec fn held(entries: Seq<PairView>, key: ValueView) -> Option<ValueView> {
    let i = place_of(entries, key, 0);
    if i < entries.len() {
        Some(entries[i].value)
    } else {
        None
    }
}

proof fn lemma_place_of(entries: Seq<PairView>, key: ValueView, k: int)
    requires
        0 <= k <= entries.len(),
    ensures
        k <= place_of(entries, key, k) <= entries.len(),
        place_of(entries, key, k) < entries.len() ==> entries[place_of(entries, key, k)].key == key,
        forall|i: int|
            k <= i < place_of(entries, key, k) ==> (#[trigger] entries[i]).key != key,
    decreases entries.len() - k,
{
    if k < entries.len() && entries[k].key != key {
        lemma_place_of(entries, key, k + 1);
    }
}

proof fn lemma_place_above(entries: Seq<PairView>, key: ValueView, k: int)
    requires
        0 <= k <= entries.len(),
    ensures
        k <= place_above(entries, key, k) <= entries.len(),
    decreases entries.len() - k,
{
    if k < entries.len() {
        lemma_place_above(entries, key, k + 1);
    }
}

proof fn lemma_held(entries: Seq<PairView>, key: ValueView, i: int)
    requires
        distinct_keys(entries),
        0 <= i < entries.len(),
        entries[i].key == key,
    ensures
        held(entries, key) == Some(entries[i].value),
{
    lemma_place_of(entries, key, 0);
    let j = place_of(entries, key, 0);
    if j < i {
        assert(entries[j].key != entries[i].key);
    }
}

/// A map holds a key once: setting one replaces what it held, and leaves what every
/// other key holds as it was.
pub proof fn a_map_holds_a_key_once(m: MapView, key: ValueView, value: ValueView)
    requires
        distinct_keys(m.entries),
    ensures
        distinct_keys(m.put(key, value).entries),
        held(m.put(key, value).entries, key) == Some(value),
        forall|other: ValueView|
            other != key ==> #[trigger] held(m.put(key, value).entries, other) == held(
                m.entries,
                other,
            ),
{
    let i = place_of(m.entries, key, 0);
    let after = m.put(key, value).entries;
    lemma_place_of(m.entries, key, 0);
    lemma_place_above(m.entries, key, 0);
    let p = if i < m.entries.len() {
        i
    } else if m.ordered {
        place_above(m.entries, key, 0)
    } else {
        m.entries.len() as int
    };
    assert(after[p] == PairView { key, value });
    lemma_held(after, key, p);
    assert forall|other: ValueView| other != key implies #[trigger] held(after, other) == held(
        m.entries,
        other,
    ) by {
        lemma_place_of(m.entries, other, 0);
        lemma_place_of(after, other, 0);
        let j = place_of(m.entries, other, 0);
        if j < m.entries.len() {
            let q = if i < m.entries.len() || j < p {
                j
            } else {
                j + 1
            };
            assert(after[q] == m.entries[j]);
            lemma_held(after, other, q);
        } else {
            let q = place_of(after, other, 0);
            if q < after.len() {
                assert(q != p);
                let b = if i < m.entries.len() || q < p {
                    q
                } else {
                    q - 1
                };
                assert(after[q] == m.entries[b]);
            }
        }
    }
}

/// Growing a list keeps the elements that it has and fills up with its element.
pub proof fn growing_keeps_the_elements(l: ListView, n: int)
    ensures
        l.grown(n).items.len() >= n,
        l.grown(n).items.len() >= l.items.len(),
        forall|i: int| 0 <= i < l.items.len() ==> #[trigger] l.grown(n).items[i] == l.items[i],
        forall|i: int|
            l.items.len() <= i < l.grown(n).items.len() ==> #[trigger] l.grown(n).items[i]
                == *l.element,
        l.grown(n).grown(n) == l.grown(n),
{
}

} // verus!
