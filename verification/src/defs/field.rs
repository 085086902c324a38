//! Fields of definitions as values.

use vstd::prelude::*;

use crate::lower::mesh::DefIndex;
use crate::single::Single;
use crate::text::base;
use crate::value;
use crate::value::{
    copy_numbers, List, ListView, MapView, Mapping, Pair, PairView, Scalar, ScalarView, Value,
    ValueView,
};

verus! {

broadcast use base::group_views;

/// A type that a field of a definition can have.
pub trait DefField: View + Sized {
    /// The value of a field.
    spec fn field(v: Self::V) -> ValueView;

    /// The field that a value is.
    spec fn read(x: ValueView) -> Option<Self::V>;

    /// A field reads back from its value.
    proof fn reads_back(v: Self::V)
        ensures
            Self::read(Self::field(v)) == Some(v),
    ;

    /// The value of the field.
    fn to_value(&self) -> (r: Value)
        ensures
            r@ == Self::field(self@),
    ;

    /// The field that a value is.
    fn from_value(x: &Value) -> (r: Option<Self>)
        ensures
            opt_view(r) == Self::read(x@),
    ;
}

/// The view of what may be missing.
pub open spec fn opt_view<T: View>(r: Option<T>) -> Option<T::V> {
    match r {
        Some(x) => Some(x@),
        None => None,
    }
}

// ── Scalars ──────────────────────────────────────────────────────────────────

/// The offset of a string in the table of names; -1 is the empty string.
#[derive(Debug, Clone, Copy, PartialEq, Eq, Structural)]
pub struct DefString(pub i32);

impl View for DefString {
    type V = DefString;

    open spec fn view(&self) -> DefString {
        *self
    }
}

/// One of the values of an enumeration.
#[derive(Debug)]
pub struct EnumField {
    pub allowed: Vec<i32>,
    pub value: i32,
}

/// What an [`EnumField`] holds.
pub struct EnumFieldView {
    pub allowed: Seq<i32>,
    pub value: i32,
}

impl View for EnumField {
    type V = EnumFieldView;

    open spec fn view(&self) -> EnumFieldView {
        EnumFieldView { allowed: self.allowed@, value: self.value }
    }
}

impl DefField for i32 {
    open spec fn field(v: i32) -> ValueView {
        ValueView::Scalar(ScalarView::I32(v))
    }

    open spec fn read(x: ValueView) -> Option<i32> {
        match x {
            ValueView::Scalar(ScalarView::I32(n)) => Some(n),
            _ => None,
        }
    }

    proof fn reads_back(v: i32) {
    }

    fn to_value(&self) -> (r: Value) {
        let r = Value::Scalar(Scalar::I32(*self));
        proof {
            value::lemma_value_view(r);
        }
        r
    }

    fn from_value(x: &Value) -> (r: Option<Self>) {
        proof {
            value::lemma_value_view(*x);
        }
        match x {
            Value::Scalar(Scalar::I32(n)) => Some(*n),
            _ => None,
        }
    }
}

impl DefField for u32 {
    open spec fn field(v: u32) -> ValueView {
        ValueView::Scalar(ScalarView::U32(v))
    }

    open spec fn read(x: ValueView) -> Option<u32> {
        match x {
            ValueView::Scalar(ScalarView::U32(n)) => Some(n),
            _ => None,
        }
    }

    proof fn reads_back(v: u32) {
    }

    fn to_value(&self) -> (r: Value) {
        let r = Value::Scalar(Scalar::U32(*self));
        proof {
            value::lemma_value_view(r);
        }
        r
    }

    fn from_value(x: &Value) -> (r: Option<Self>) {
        proof {
            value::lemma_value_view(*x);
        }
        match x {
            Value::Scalar(Scalar::U32(n)) => Some(*n),
            _ => None,
        }
    }
}

impl DefField for bool {
    open spec fn field(v: bool) -> ValueView {
        ValueView::Scalar(ScalarView::Bool(v))
    }

    open spec fn read(x: ValueView) -> Option<bool> {
        match x {
            ValueView::Scalar(ScalarView::Bool(n)) => Some(n),
            _ => None,
        }
    }

    proof fn reads_back(v: bool) {
    }

    fn to_value(&self) -> (r: Value) {
        let r = Value::Scalar(Scalar::Bool(*self));
        proof {
            value::lemma_value_view(r);
        }
        r
    }

    fn from_value(x: &Value) -> (r: Option<Self>) {
        proof {
            value::lemma_value_view(*x);
        }
        match x {
            Value::Scalar(Scalar::Bool(n)) => Some(*n),
            _ => None,
        }
    }
}

impl DefField for Single {
    open spec fn field(v: Single) -> ValueView {
        ValueView::Scalar(ScalarView::Single(v))
    }

    open spec fn read(x: ValueView) -> Option<Single> {
        match x {
            ValueView::Scalar(ScalarView::Single(n)) => Some(n),
            _ => None,
        }
    }

    proof fn reads_back(v: Single) {
    }

    fn to_value(&self) -> (r: Value) {
        let r = Value::Scalar(Scalar::Single(*self));
        proof {
            value::lemma_value_view(r);
        }
        r
    }

    fn from_value(x: &Value) -> (r: Option<Self>) {
        proof {
            value::lemma_value_view(*x);
        }
        match x {
            Value::Scalar(Scalar::Single(n)) => Some(*n),
            _ => None,
        }
    }
}

impl DefField for String {
    open spec fn field(v: Seq<char>) -> ValueView {
        ValueView::Scalar(ScalarView::Str(v))
    }

    open spec fn read(x: ValueView) -> Option<Seq<char>> {
        match x {
            ValueView::Scalar(ScalarView::Str(s)) => Some(s),
            _ => None,
        }
    }

    proof fn reads_back(v: Seq<char>) {
    }

    fn to_value(&self) -> (r: Value) {
        let r = Value::Scalar(Scalar::Str(self.clone()));
        proof {
            value::lemma_value_view(r);
        }
        r
    }

    fn from_value(x: &Value) -> (r: Option<Self>) {
        proof {
            value::lemma_value_view(*x);
        }
        match x {
            Value::Scalar(Scalar::Str(s)) => Some(s.clone()),
            _ => None,
        }
    }
}

impl DefField for DefIndex {
    open spec fn field(v: DefIndex) -> ValueView {
        ValueView::Scalar(ScalarView::DefIndex(v.0))
    }

    open spec fn read(x: ValueView) -> Option<DefIndex> {
        match x {
            ValueView::Scalar(ScalarView::DefIndex(n)) => Some(DefIndex(n)),
            _ => None,
        }
    }

    proof fn reads_back(v: DefIndex) {
    }

    fn to_value(&self) -> (r: Value) {
        let r = Value::Scalar(Scalar::DefIndex(self.0));
        proof {
            value::lemma_value_view(r);
        }
        r
    }

    fn from_value(x: &Value) -> (r: Option<Self>) {
        proof {
            value::lemma_value_view(*x);
        }
        match x {
            Value::Scalar(Scalar::DefIndex(n)) => Some(DefIndex(*n)),
            _ => None,
        }
    }
}

impl DefField for DefString {
    open spec fn field(v: DefString) -> ValueView {
        ValueView::Scalar(ScalarView::DefString(v.0))
    }

    open spec fn read(x: ValueView) -> Option<DefString> {
        match x {
            ValueView::Scalar(ScalarView::DefString(n)) => Some(DefString(n)),
            _ => None,
        }
    }

    proof fn reads_back(v: DefString) {
    }

    fn to_value(&self) -> (r: Value) {
        let r = Value::Scalar(Scalar::DefString(self.0));
        proof {
            value::lemma_value_view(r);
        }
        r
    }

    fn from_value(x: &Value) -> (r: Option<Self>) {
        proof {
            value::lemma_value_view(*x);
        }
        match x {
            Value::Scalar(Scalar::DefString(n)) => Some(DefString(*n)),
            _ => None,
        }
    }
}

impl DefField for EnumField {
    open spec fn field(v: EnumFieldView) -> ValueView {
        ValueView::Scalar(ScalarView::Enum { allowed: v.allowed, value: v.value })
    }

    open spec fn read(x: ValueView) -> Option<EnumFieldView> {
        match x {
            ValueView::Scalar(ScalarView::Enum { allowed, value }) => Some(EnumFieldView { allowed, value }),
            _ => None,
        }
    }

    proof fn reads_back(v: EnumFieldView) {
    }

    fn to_value(&self) -> (r: Value) {
        let r = Value::Scalar(Scalar::Enum {
            allowed: copy_numbers(&self.allowed),
            value: self.value,
        });
        proof {
            value::lemma_value_view(r);
        }
        r
    }

    fn from_value(x: &Value) -> (r: Option<Self>) {
        proof {
            value::lemma_value_view(*x);
        }
        match x {
            Value::Scalar(Scalar::Enum { allowed, value }) => Some(
                EnumField { allowed: copy_numbers(allowed), value: *value },
            ),
            _ => None,
        }
    }
}

/// A field of any other kind stands for itself.
impl DefField for Value {
    open spec fn field(v: ValueView) -> ValueView {
        v
    }

    open spec fn read(x: ValueView) -> Option<ValueView> {
        Some(x)
    }

    proof fn reads_back(v: ValueView) {
    }

    fn to_value(&self) -> (r: Value) {
        self.clone()
    }

    fn from_value(x: &Value) -> (r: Option<Self>) {
        Some(x.clone())
    }
}

// ── Lists ────────────────────────────────────────────────────────────────────

/// A list; a new element starts as a copy of `element`.
#[derive(Debug)]
pub struct Listed<T> {
    pub element: T,
    pub items: Vec<T>,
}

/// What a [`Listed`] holds.
pub struct ListedView<V> {
    pub element: V,
    pub items: Seq<V>,
}

impl<T: View> View for Listed<T> {
    type V = ListedView<T::V>;

    open spec fn view(&self) -> ListedView<T::V> {
        ListedView { element: self.element@, items: base::views(self.items@) }
    }
}

/// The values of some items.
pub open spec fn fields_of<T: DefField>(v: Seq<T::V>) -> Seq<ValueView> {
    Seq::new(v.len(), |i: int| T::field(v[i]))
}

/// The items that the first `k` values are.
pub open spec fn read_items<T: DefField>(v: Seq<ValueView>, k: int) -> Option<Seq<T::V>>
    decreases k,
{
    if k <= 0 || k > v.len() {
        Some(Seq::empty())
    } else {
        match (read_items::<T>(v, k - 1), T::read(v[k - 1])) {
            (Some(before), Some(x)) => Some(before.push(x)),
            _ => None,
        }
    }
}

proof fn lemma_items_back<T: DefField>(v: Seq<T::V>, k: int)
    requires
        0 <= k <= v.len(),
    ensures
        read_items::<T>(fields_of::<T>(v), k) == Some(v.take(k)),
    decreases k,
{
    if k > 0 {
        lemma_items_back::<T>(v, k - 1);
        T::reads_back(v[k - 1]);
        assert(v.take(k) =~= v.take(k - 1).push(v[k - 1]));
    } else {
        assert(v.take(0) =~= Seq::<T::V>::empty());
    }
}

proof fn lemma_items_missing<T: DefField>(v: Seq<ValueView>, i: int, k: int)
    requires
        0 <= i <= k <= v.len(),
        read_items::<T>(v, i) is None,
    ensures
        read_items::<T>(v, k) is None,
    decreases k - i,
{
    if i < k {
        lemma_items_missing::<T>(v, i, k - 1);
    }
}

fn items_to_values<T: DefField>(v: &Vec<T>) -> (r: Vec<Value>)
    ensures
        base::views(r@) == fields_of::<T>(base::views(v@)),
{
    let ghost all = base::views(v@);
    let mut out: Vec<Value> = Vec::new();
    let mut i: usize = 0;
    while i < v.len()
        invariant
            i <= v@.len(),
            all == base::views(v@),
            base::views(out@) =~= fields_of::<T>(all).take(i as int),
        decreases v@.len() - i,
    {
        assert(all[i as int] == v@[i as int]@);
        out.push(v[i].to_value());
        i = i + 1;
    }
    out
}

fn items_from_values<T: DefField>(v: &Vec<Value>) -> (r: Option<Vec<T>>)
    ensures
        (match r {
            Some(x) => Some(base::views(x@)),
            None => None,
        }) == read_items::<T>(base::views(v@), v@.len() as int),
{
    let ghost all = base::views(v@);
    let mut out: Vec<T> = Vec::new();
    let mut i: usize = 0;
    while i < v.len()
        invariant
            i <= v@.len(),
            all == base::views(v@),
            read_items::<T>(all, i as int) == Some(base::views(out@)),
        decreases v@.len() - i,
    {
        assert(all[i as int] == v@[i as int]@);
        match T::from_value(&v[i]) {
            Some(x) => out.push(x),
            None => {
                proof {
                    lemma_items_missing::<T>(all, i as int + 1, all.len() as int);
                }
                return None;
            },
        }
        i = i + 1;
    }
    Some(out)
}

impl<T: DefField> DefField for Listed<T> {
    open spec fn field(v: ListedView<T::V>) -> ValueView {
        ValueView::List(
            ListView { element: Box::new(T::field(v.element)), items: fields_of::<T>(v.items) },
        )
    }

    open spec fn read(x: ValueView) -> Option<ListedView<T::V>> {
        match x {
            ValueView::List(l) => match (
                T::read(*l.element),
                read_items::<T>(l.items, l.items.len() as int),
            ) {
                (Some(element), Some(items)) => Some(ListedView { element, items }),
                _ => None,
            },
            _ => None,
        }
    }

    proof fn reads_back(v: ListedView<T::V>) {
        T::reads_back(v.element);
        lemma_items_back::<T>(v.items, v.items.len() as int);
        assert(v.items.take(v.items.len() as int) =~= v.items);
    }

    fn to_value(&self) -> (r: Value) {
        let r = Value::List(
            List {
                element: Box::new(self.element.to_value()),
                items: items_to_values(&self.items),
            },
        );
        proof {
            value::lemma_value_view(r);
        }
        r
    }

    fn from_value(x: &Value) -> (r: Option<Self>) {
        proof {
            value::lemma_value_view(*x);
        }
        match x {
            Value::List(l) => match (T::from_value(&l.element), items_from_values(&l.items)) {
                (Some(element), Some(items)) => Some(Listed { element, items }),
                _ => None,
            },
            _ => None,
        }
    }
}

// ── Maps ─────────────────────────────────────────────────────────────────────

/// A map; a new entry starts from copies of `key` and `value`.
#[derive(Debug)]
pub struct Mapped<K, T> {
    pub ordered: bool,
    pub key: K,
    pub value: T,
    pub entries: Vec<Entry<K, T>>,
}

/// An entry of a map.
#[derive(Debug)]
pub struct Entry<K, T> {
    pub key: K,
    pub value: T,
}

/// What a [`Mapped`] holds.
pub struct MappedView<K, T> {
    pub ordered: bool,
    pub key: K,
    pub value: T,
    pub entries: Seq<EntryView<K, T>>,
}

/// What an [`Entry`] holds.
pub struct EntryView<K, T> {
    pub key: K,
    pub value: T,
}

impl<K: View, T: View> View for Entry<K, T> {
    type V = EntryView<K::V, T::V>;

    open spec fn view(&self) -> EntryView<K::V, T::V> {
        EntryView { key: self.key@, value: self.value@ }
    }
}

impl<K: View, T: View> View for Mapped<K, T> {
    type V = MappedView<K::V, T::V>;

    open spec fn view(&self) -> MappedView<K::V, T::V> {
        MappedView {
            ordered: self.ordered,
            key: self.key@,
            value: self.value@,
            entries: base::views(self.entries@),
        }
    }
}

/// The values of some entries.
pub open spec fn pairs_of<K: DefField, T: DefField>(v: Seq<EntryView<K::V, T::V>>) -> Seq<
    PairView,
> {
    Seq::new(
        v.len(),
        |i: int| PairView { key: K::field(v[i].key), value: T::field(v[i].value) },
    )
}

/// The entries that the first `k` pairs of values are.
pub open spec fn read_pairs<K: DefField, T: DefField>(v: Seq<PairView>, k: int) -> Option<
    Seq<EntryView<K::V, T::V>>,
>
    decreases k,
{
    if k <= 0 || k > v.len() {
        Some(Seq::empty())
    } else {
        match (read_pairs::<K, T>(v, k - 1), K::read(v[k - 1].key), T::read(v[k - 1].value)) {
            (Some(before), Some(key), Some(value)) => Some(before.push(EntryView { key, value })),
            _ => None,
        }
    }
}

proof fn lemma_pairs_back<K: DefField, T: DefField>(v: Seq<EntryView<K::V, T::V>>, k: int)
    requires
        0 <= k <= v.len(),
    ensures
        read_pairs::<K, T>(pairs_of::<K, T>(v), k) == Some(v.take(k)),
    decreases k,
{
    if k > 0 {
        lemma_pairs_back::<K, T>(v, k - 1);
        K::reads_back(v[k - 1].key);
        T::reads_back(v[k - 1].value);
        assert(v.take(k) =~= v.take(k - 1).push(v[k - 1]));
    } else {
        assert(v.take(0) =~= Seq::<EntryView<K::V, T::V>>::empty());
    }
}

proof fn lemma_pairs_missing<K: DefField, T: DefField>(v: Seq<PairView>, i: int, k: int)
    requires
        0 <= i <= k <= v.len(),
        read_pairs::<K, T>(v, i) is None,
    ensures
        read_pairs::<K, T>(v, k) is None,
    decreases k - i,
{
    if i < k {
        lemma_pairs_missing::<K, T>(v, i, k - 1);
    }
}

fn pairs_to_values<K: DefField, T: DefField>(v: &Vec<Entry<K, T>>) -> (r: Vec<Pair>)
    ensures
        base::views(r@) == pairs_of::<K, T>(base::views(v@)),
{
    let ghost all = base::views(v@);
    let mut out: Vec<Pair> = Vec::new();
    let mut i: usize = 0;
    while i < v.len()
        invariant
            i <= v@.len(),
            all == base::views(v@),
            base::views(out@) =~= pairs_of::<K, T>(all).take(i as int),
        decreases v@.len() - i,
    {
        assert(all[i as int] == v@[i as int]@);
        out.push(Pair { key: v[i].key.to_value(), value: v[i].value.to_value() });
        i = i + 1;
    }
    out
}

fn pairs_from_values<K: DefField, T: DefField>(v: &Vec<Pair>) -> (r: Option<Vec<Entry<K, T>>>)
    ensures
        (match r {
            Some(x) => Some(base::views(x@)),
            None => None,
        }) == read_pairs::<K, T>(base::views(v@), v@.len() as int),
{
    let ghost all = base::views(v@);
    let mut out: Vec<Entry<K, T>> = Vec::new();
    let mut i: usize = 0;
    while i < v.len()
        invariant
            i <= v@.len(),
            all == base::views(v@),
            read_pairs::<K, T>(all, i as int) == Some(base::views(out@)),
        decreases v@.len() - i,
    {
        assert(all[i as int] == v@[i as int]@);
        match (K::from_value(&v[i].key), T::from_value(&v[i].value)) {
            (Some(key), Some(value)) => out.push(Entry { key, value }),
            _ => {
                proof {
                    lemma_pairs_missing::<K, T>(all, i as int + 1, all.len() as int);
                }
                return None;
            },
        }
        i = i + 1;
    }
    Some(out)
}

impl<K: DefField, T: DefField> DefField for Mapped<K, T> {
    open spec fn field(v: MappedView<K::V, T::V>) -> ValueView {
        ValueView::Mapping(
            MapView {
                ordered: v.ordered,
                key: Box::new(K::field(v.key)),
                value: Box::new(T::field(v.value)),
                entries: pairs_of::<K, T>(v.entries),
            },
        )
    }

    open spec fn read(x: ValueView) -> Option<MappedView<K::V, T::V>> {
        match x {
            ValueView::Mapping(m) => match (
                K::read(*m.key),
                T::read(*m.value),
                read_pairs::<K, T>(m.entries, m.entries.len() as int),
            ) {
                (Some(key), Some(value), Some(entries)) => Some(
                    MappedView { ordered: m.ordered, key, value, entries },
                ),
                _ => None,
            },
            _ => None,
        }
    }

    proof fn reads_back(v: MappedView<K::V, T::V>) {
        K::reads_back(v.key);
        T::reads_back(v.value);
        lemma_pairs_back::<K, T>(v.entries, v.entries.len() as int);
        assert(v.entries.take(v.entries.len() as int) =~= v.entries);
    }

    fn to_value(&self) -> (r: Value) {
        let r = Value::Mapping(
            Mapping {
                ordered: self.ordered,
                key: Box::new(self.key.to_value()),
                value: Box::new(self.value.to_value()),
                entries: pairs_to_values(&self.entries),
            },
        );
        proof {
            value::lemma_value_view(r);
        }
        r
    }

    fn from_value(x: &Value) -> (r: Option<Self>) {
        proof {
            value::lemma_value_view(*x);
        }
        match x {
            Value::Mapping(m) => match (
                K::from_value(&m.key),
                T::from_value(&m.value),
                pairs_from_values(&m.entries),
            ) {
                (Some(key), Some(value), Some(entries)) => Some(
                    Mapped { ordered: m.ordered, key, value, entries },
                ),
                _ => None,
            },
            _ => None,
        }
    }
}

} // verus!
