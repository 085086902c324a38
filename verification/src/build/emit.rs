//! The entries of a binary: the null definitions of its classes, and behind them its
//! named definitions.

use vstd::prelude::*;

use crate::build::blocks::SubDefRecord;
use crate::build::diagnostics::{
    BuildDiagnostic, DiagnosticView, Diagnostics, Severity, SourceFile,
};
use crate::build::linking;
use crate::build::linking::{lower_interning, LinkView, TaskView};
use crate::build::reports;
use crate::build::reports::{lowering_error_diagnostic, DefPlace};
use crate::lower::body;
use crate::lower::body::flatten_specialization;
use crate::lower::def;
use crate::lower::def::{BodyView, DefBody, DefTypes};
use crate::lower::env::{LowerEnv, LowerError, LowerErrorView};
use crate::name_map::NameMap;
use crate::names;
use crate::names::NamesBuilder;
use crate::strings;
use crate::strings::{push_nat, push_text, same};
use crate::text::ast::{Definition, DefinitionView, Statement, StatementView};
use crate::text::base;
use crate::text::base::Spanned;
use crate::text::symbols::SymbolTable;

verus! {

broadcast use base::group_views;

// ── Indices of classes ───────────────────────────────────────────────────────

/// How many entries a class has so far.
pub open spec fn class_count(counters: Map<Seq<char>, u32>, class: Seq<char>) -> u32 {
    if counters.contains_key(class) {
        counters[class]
    } else {
        0
    }
}

/// The counters with one more entry of a class.
pub open spec fn counted(counters: Map<Seq<char>, u32>, class: Seq<char>) -> Map<Seq<char>, u32> {
    counters.insert(class, (class_count(counters, class) + 1) as u32)
}

/// The next index of a class: one counter for each class, from zero on. Index zero is
/// the null definition, which stands for no definition.
pub fn next_class_index(counters: &mut NameMap<u32>, class_name: &str) -> (r: u32)
    requires
        class_count(old(counters)@, class_name@) < u32::MAX,
    ensures
        r == class_count(old(counters)@, class_name@),
        final(counters)@ == counted(old(counters)@, class_name@),
{
    let index: u32 = match counters.get(class_name) {
        Some(n) => n,
        None => 0,
    };
    counters.insert(class_name, index + 1);
    index
}

/// The counters behind the first `k` entries of the given classes.
pub open spec fn counters_of(classes: Seq<Seq<char>>, k: int) -> Map<Seq<char>, u32>
    decreases k,
{
    if k <= 0 || k > classes.len() {
        Map::empty()
    } else {
        counted(counters_of(classes, k - 1), classes[k - 1])
    }
}

/// How often a class is among the first `k`.
pub open spec fn occurrences(classes: Seq<Seq<char>>, class: Seq<char>, k: int) -> nat
    decreases k,
{
    if k <= 0 || k > classes.len() {
        0
    } else if classes[k - 1] == class {
        occurrences(classes, class, k - 1) + 1
    } else {
        occurrences(classes, class, k - 1)
    }
}

/// The index of an entry is the number of entries of its class before it, whatever
/// entries of other classes come between: from zero on, and without a gap.
pub proof fn class_indices_count_their_class(classes: Seq<Seq<char>>, class: Seq<char>, k: int)
    requires
        0 <= k <= classes.len() <= u32::MAX,
    ensures
        class_count(counters_of(classes, k), class) == occurrences(classes, class, k),
        occurrences(classes, class, k) <= k,
    decreases k,
{
    if k > 0 {
        class_indices_count_their_class(classes, class, k - 1);
        class_indices_count_their_class(classes, classes[k - 1], k - 1);
    }
}

// ── Null definitions ─────────────────────────────────────────────────────────

/// The null definition of a class: what a definition is where nothing is set.
#[derive(Debug)]
pub struct NullDef {
    pub class: String,
    pub body: DefBody,
}

/// What a [`NullDef`] holds.
pub struct NullView {
    pub class: Seq<char>,
    pub body: BodyView,
}

impl View for NullDef {
    type V = NullView;

    open spec fn view(&self) -> NullView {
        NullView { class: self.class@, body: self.body@ }
    }
}

/// The null definition of a class, from place `k` on.
pub open spec fn null_of(nulls: Seq<NullView>, class: Seq<char>, k: int) -> Option<BodyView>
    decreases nulls.len() - k,
{
    if k < 0 || k >= nulls.len() {
        None
    } else if nulls[k].class == class {
        Some(nulls[k].body)
    } else {
        null_of(nulls, class, k + 1)
    }
}

/// The null definition of a class.
pub fn find_null<'a>(nulls: &'a Vec<NullDef>, class: &str) -> (r: Option<&'a DefBody>)
    ensures
        def::body_opt(r) == null_of(base::views(nulls@), class@, 0),
{
    let ghost all = base::views(nulls@);
    let n: usize = nulls.len();
    let mut k: usize = 0;
    while k < n
        invariant
            k <= n,
            n == nulls@.len(),
            all == base::views(nulls@),
            null_of(all, class@, 0) == null_of(all, class@, k as int),
        decreases n - k,
    {
        assert(all[k as int] == nulls@[k as int]@);
        if same(nulls[k].class.as_str(), class) {
            return Some(&nulls[k].body);
        }
        k = k + 1;
    }
    None
}

/// What a definition of a class without statements is, to lower it.
pub open spec fn null_task(class: Seq<char>) -> TaskView {
    TaskView { class, base: None, body: Seq::empty() }
}

/// The message why the null definition of a class cannot be lowered.
pub open spec fn null_failure(class: Seq<char>, x: LowerErrorView) -> Seq<char> {
    "NULLDEF lowering failed for "@ + class + ": "@ + x.message()
}

fn null_message(class: &str, e: &LowerError) -> (r: String)
    ensures
        r@ == null_failure(class@, e@),
{
    let mut m = String::new();
    push_text(&mut m, "NULLDEF lowering failed for ");
    push_text(&mut m, class);
    push_text(&mut m, ": ");
    push_text(&mut m, e.message().as_str());
    m
}

/// The null definitions of the first `k` classes, each class once, or the message why
/// there are none; and the strings of the table then.
pub open spec fn nulls_upto(
    link: LinkView,
    strings: Seq<Seq<char>>,
    classes: Seq<Seq<char>>,
    k: int,
) -> (Result<Seq<NullView>, Seq<char>>, Seq<Seq<char>>)
    decreases k,
{
    if k <= 0 || k > classes.len() {
        (Ok(Seq::empty()), strings)
    } else {
        let class = classes[k - 1];
        match nulls_upto(link, strings, classes, k - 1) {
            (Err(m), s) => (Err(m), s),
            (Ok(nulls), s) => if null_of(nulls, class, 0) is Some {
                (Ok(nulls), s)
            } else {
                match linking::lowering(link, s, null_task(class)) {
                    (Ok(body), s) => (Ok(nulls.push(NullView { class, body })), s),
                    (Err(x), s) => (Err(null_failure(class, x)), s),
                }
            },
        }
    }
}

proof fn lemma_null_error(
    link: LinkView,
    strings: Seq<Seq<char>>,
    classes: Seq<Seq<char>>,
    i: int,
    j: int,
)
    requires
        0 <= i <= j <= classes.len(),
        nulls_upto(link, strings, classes, i).0 is Err,
    ensures
        nulls_upto(link, strings, classes, j) == nulls_upto(link, strings, classes, i),
    decreases j - i,
{
    if i < j {
        lemma_null_error(link, strings, classes, i, j - 1);
    }
}

/// The view of null definitions or of the message why there are none.
pub open spec fn nulls_view(r: Result<Vec<NullDef>, String>) -> Result<Seq<NullView>, Seq<char>> {
    match r {
        Ok(v) => Ok(base::views(v@)),
        Err(m) => Err(m@),
    }
}

/// The null definitions of some classes, each class once. The strings that they ask for
/// are added to the table.
pub fn build_nulldefs<E: LowerEnv>(
    types: &DefTypes,
    classes: &Vec<&str>,
    symbols: &SymbolTable,
    env: &E,
    table: &mut NamesBuilder,
) -> (r: Result<Vec<NullDef>, String>)
    requires
        old(table).wf(),
    ensures
        final(table).wf(),
        (nulls_view(r), final(table)@) == nulls_upto(
            linking::link_of(types, symbols@, env),
            old(table)@,
            base::views(classes@),
            classes@.len() as int,
        ),
{
    let ghost link = linking::link_of(types, symbols@, env);
    let ghost all = base::views(classes@);
    let ghost start = table@;
    let none: Vec<Spanned<Statement>> = Vec::new();
    let mut nulls: Vec<NullDef> = Vec::new();
    let mut k: usize = 0;
    while k < classes.len()
        invariant
            k <= classes@.len(),
            all == base::views(classes@),
            link == linking::link_of(types, symbols@, env),
            start == old(table)@,
            table.wf(),
            base::views(none@) == Seq::<Spanned<StatementView>>::empty(),
            nulls_upto(link, start, all, k as int) == (
                Ok::<Seq<NullView>, Seq<char>>(base::views(nulls@)),
                table@,
            ),
        decreases classes@.len() - k,
    {
        let class = classes[k];
        proof {
            assert(all[k as int] == class@);
        }
        if find_null(&nulls, class).is_none() {
            match lower_interning(types, class, None, &none, symbols, env, table) {
                Ok(body) => {
                    nulls.push(NullDef { class: class.to_owned(), body });
                },
                Err(e) => {
                    let m = null_message(class, &e);
                    proof {
                        assert(nulls_upto(link, start, all, k as int + 1) == (
                            Err::<Seq<NullView>, Seq<char>>(m@),
                            table@,
                        ));
                        lemma_null_error(link, start, all, k as int + 1, all.len() as int);
                    }
                    return Err(m);
                },
            }
        }
        k = k + 1;
    }
    Ok(nulls)
}

// ── Entries ──────────────────────────────────────────────────────────────────

/// What stands before an entry.
#[derive(Debug, Clone, Copy, PartialEq, Eq, Structural)]
pub struct EntryPreamble {
    pub is_real: bool,
    pub is_template: bool,
    pub unknown_0: u32,
}

/// An entry of a binary.
#[derive(Debug)]
pub struct Built {
    /// The offset of the name of the type.
    pub def_name_off: u32,
    /// The offset of the name of the definition.
    pub file_name_off: u32,
    /// The index in the class.
    pub counter: u32,
    pub preamble: EntryPreamble,
    /// The table of its blocks, where its type has one.
    pub sub_defs: Option<Vec<SubDefRecord>>,
    pub body: DefBody,
}

/// What a [`Built`] holds.
pub struct BuiltView {
    pub def_name_off: u32,
    pub file_name_off: u32,
    pub counter: u32,
    pub preamble: EntryPreamble,
    pub sub_defs: Option<Seq<SubDefRecord>>,
    pub body: BodyView,
}

/// The records of a table, where there is one.
pub open spec fn records(t: Option<Vec<SubDefRecord>>) -> Option<Seq<SubDefRecord>> {
    match t {
        Some(v) => Some(v@),
        None => None,
    }
}

impl View for Built {
    type V = BuiltView;

    open spec fn view(&self) -> BuiltView {
        BuiltView {
            def_name_off: self.def_name_off,
            file_name_off: self.file_name_off,
            counter: self.counter,
            preamble: self.preamble,
            sub_defs: records(self.sub_defs),
            body: self.body@,
        }
    }
}

/// The entries so far, and the counters of the classes.
pub struct Emitted {
    pub entries: Seq<BuiltView>,
    pub counters: Map<Seq<char>, u32>,
}

/// The table of an entry that has no blocks yet, where its class has one.
pub open spec fn empty_table(tables: Seq<Seq<char>>, class: Seq<char>) -> Option<
    Seq<SubDefRecord>,
> {
    if tables.contains(class) {
        Some(Seq::empty())
    } else {
        None
    }
}

/// The offsets of the class and of the name of an entry; or that there was no room for one.
pub open spec fn offsets(strings: Seq<Seq<char>>, class: Seq<char>, name: Seq<char>) -> Result<
    (u32, u32),
    LowerErrorView,
> {
    match names::found_offset(strings, class) {
        None => Err(LowerErrorView::UnresolvedReference(class, None)),
        Some(c) => match names::found_offset(strings, name) {
            None => Err(LowerErrorView::UnresolvedReference(name, None)),
            Some(n) => Ok((c, n)),
        },
    }
}

/// The entries with one more.
pub open spec fn with_entry(
    tables: Seq<Seq<char>>,
    st: Emitted,
    class: Seq<char>,
    at: (u32, u32),
    preamble: EntryPreamble,
    body: BodyView,
) -> Emitted {
    Emitted {
        entries: st.entries.push(
            BuiltView {
                def_name_off: at.0,
                file_name_off: at.1,
                counter: class_count(st.counters, class),
                preamble,
                sub_defs: empty_table(tables, class),
                body,
            },
        ),
        counters: counted(st.counters, class),
    }
}

/// The preamble of a null definition.
pub open spec fn null_preamble() -> EntryPreamble {
    EntryPreamble { is_real: false, is_template: false, unknown_0: 0 }
}

/// The preamble of a named definition.
pub open spec fn named_preamble() -> EntryPreamble {
    EntryPreamble { is_real: true, is_template: false, unknown_0: 1 }
}

/// The entries of the null definitions of the first `k` classes, or the message which
/// is missing; and the strings of the table then. A class is added before the name of its
/// null definition.
pub open spec fn null_entries(
    strings: Seq<Seq<char>>,
    tables: Seq<Seq<char>>,
    nulls: Seq<NullView>,
    classes: Seq<Seq<char>>,
    st: Emitted,
    k: int,
) -> (Result<Emitted, Seq<char>>, Seq<Seq<char>>)
    decreases k,
{
    if k <= 0 || k > classes.len() {
        (Ok(st), strings)
    } else {
        let class = classes[k - 1];
        match null_entries(strings, tables, nulls, classes, st, k - 1) {
            (Err(m), s) => (Err(m), s),
            (Ok(st), s) => match null_of(nulls, class, 0) {
                None => (Err("NULLDEF body missing for "@ + class), s),
                Some(body) => {
                    let name = "NULLDEF_"@ + class;
                    let s = names::held(names::held(s, class), name);
                    match offsets(s, class, name) {
                        Err(x) => (Err(null_failure(class, x)), s),
                        Ok(at) => (
                            Ok(with_entry(tables, st, class, at, null_preamble(), body)),
                            s,
                        ),
                    }
                },
            },
        }
    }
}

proof fn lemma_null_entry_error(
    strings: Seq<Seq<char>>,
    tables: Seq<Seq<char>>,
    nulls: Seq<NullView>,
    classes: Seq<Seq<char>>,
    st: Emitted,
    i: int,
    j: int,
)
    requires
        0 <= i <= j <= classes.len(),
        null_entries(strings, tables, nulls, classes, st, i).0 is Err,
    ensures
        null_entries(strings, tables, nulls, classes, st, j) == null_entries(
            strings,
            tables,
            nulls,
            classes,
            st,
            i,
        ),
    decreases j - i,
{
    if i < j {
        lemma_null_entry_error(strings, tables, nulls, classes, st, i, j - 1);
    }
}

/// Every class has at most `n` entries.
pub open spec fn counts_upto(counters: Map<Seq<char>, u32>, n: int) -> bool {
    forall|c: Seq<char>| counters.contains_key(c) ==> (#[trigger] counters[c]) <= n
}

/// The entries of a binary as they are built.
pub struct Entries {
    pub entries: Vec<Built>,
    pub class_index: NameMap<u32>,
}

impl View for Entries {
    type V = Emitted;

    open spec fn view(&self) -> Emitted {
        Emitted { entries: base::views(self.entries@), counters: self.class_index@ }
    }
}

/// Adds the class and the name of an entry to the table. Gives back their offsets.
fn hold_names(table: &mut NamesBuilder, class: &str, name: &str) -> (r: Result<
    (u32, u32),
    LowerError,
>)
    requires
        old(table).wf(),
    ensures
        final(table).wf(),
        final(table)@ == names::held(names::held(old(table)@, class@), name@),
        (match r {
            Ok(at) => Ok(at),
            Err(e) => Err(e@),
        }) == offsets(final(table)@, class@, name@),
{
    let ghost start = table@;
    let c = table.hold(class);
    let ghost with_class = table@;
    let n = table.hold(name);
    proof {
        names::interned_strings_keep_their_offsets(with_class, name@, class@);
        names::lemma_held_new(with_class, name@, class@);
    }
    match c {
        None => Err(LowerError::UnresolvedReference(class.to_owned(), None)),
        Some(c) => match n {
            None => Err(LowerError::UnresolvedReference(name.to_owned(), None)),
            Some(n) => Ok((c, n)),
        },
    }
}

/// Whether a class is in a list.
pub(crate) fn is_listed(v: &Vec<&str>, name: &str) -> (r: bool)
    ensures
        r == base::views(v@).contains(name@),
{
    let ghost all = base::views(v@);
    let mut i: usize = 0;
    while i < v.len()
        invariant
            i <= v@.len(),
            all == base::views(v@),
            forall|j: int| 0 <= j < i ==> all[j] != name@,
        decreases v@.len() - i,
    {
        assert(all[i as int] == v@[i as int]@);
        if same(v[i], name) {
            assert(all[i as int] == name@);
            return true;
        }
        i = i + 1;
    }
    false
}

/// The table of an entry that has no blocks yet, where its class has one.
pub(crate) fn table_for(tables: &Vec<&str>, class: &str) -> (r: Option<Vec<SubDefRecord>>)
    ensures
        records(r) == empty_table(base::views(tables@), class@),
{
    if is_listed(tables, class) {
        Some(Vec::new())
    } else {
        None
    }
}

impl Entries {
    /// No entries.
    pub fn new() -> (r: Entries)
        ensures
            r@.entries == Seq::<BuiltView>::empty(),
            r@.counters == Map::<Seq<char>, u32>::empty(),
    {
        Entries { entries: Vec::new(), class_index: NameMap::new() }
    }

    fn add(
        &mut self,
        class: &str,
        at: (u32, u32),
        preamble: EntryPreamble,
        body: DefBody,
        tables: &Vec<&str>,
    )
        requires
            counts_upto(old(self)@.counters, old(self)@.entries.len() as int),
            old(self)@.entries.len() < u32::MAX,
        ensures
            final(self)@ == with_entry(
                base::views(tables@),
                old(self)@,
                class@,
                at,
                preamble,
                body@,
            ),
            counts_upto(final(self)@.counters, final(self)@.entries.len() as int),
    {
        let counter = next_class_index(&mut self.class_index, class);
        let sub_defs = table_for(tables, class);
        self.entries.push(
            Built { def_name_off: at.0, file_name_off: at.1, counter, preamble, sub_defs, body },
        );
    }

    /// Adds the entries of null definitions. The classes and the names of the null
    /// definitions are added to the table.
    pub fn emit_nulldefs(
        &mut self,
        nulldef_entries: &Vec<&str>,
        nulls: &Vec<NullDef>,
        tables: &Vec<&str>,
        table: &mut NamesBuilder,
    ) -> (r: Result<(), String>)
        requires
            old(table).wf(),
            counts_upto(old(self)@.counters, old(self)@.entries.len() as int),
            old(self)@.entries.len() + nulldef_entries@.len() < u32::MAX,
        ensures
            final(table).wf(),
            ((match r {
                Ok(_) => Ok(final(self)@),
                Err(m) => Err(m@),
            }), final(table)@) == null_entries(
                old(table)@,
                base::views(tables@),
                base::views(nulls@),
                base::views(nulldef_entries@),
                old(self)@,
                nulldef_entries@.len() as int,
            ),
            counts_upto(final(self)@.counters, final(self)@.entries.len() as int),
            final(self)@.entries.len() <= old(self)@.entries.len() + nulldef_entries@.len(),
    {
        let ghost all = base::views(nulldef_entries@);
        let ghost listed = base::views(tables@);
        let ghost bodies = base::views(nulls@);
        let ghost start = self@;
        let ghost strings = table@;
        let mut k: usize = 0;
        while k < nulldef_entries.len()
            invariant
                k <= nulldef_entries@.len(),
                all == base::views(nulldef_entries@),
                listed == base::views(tables@),
                bodies == base::views(nulls@),
                start == old(self)@,
                strings == old(table)@,
                table.wf(),
                start.entries.len() + nulldef_entries@.len() < u32::MAX,
                self@.entries.len() == start.entries.len() + k,
                counts_upto(self@.counters, self@.entries.len() as int),
                null_entries(strings, listed, bodies, all, start, k as int) == (
                    Ok::<Emitted, Seq<char>>(self@),
                    table@,
                ),
            decreases nulldef_entries@.len() - k,
        {
            let class = nulldef_entries[k];
            assert(all[k as int] == class@);
            match find_null(nulls, class) {
                None => {
                    let mut m = String::new();
                    push_text(&mut m, "NULLDEF body missing for ");
                    push_text(&mut m, class);
                    proof {
                        assert(null_entries(strings, listed, bodies, all, start, k as int + 1) == (
                            Err::<Emitted, Seq<char>>(m@),
                            table@,
                        ));
                        lemma_null_entry_error(
                            strings,
                            listed,
                            bodies,
                            all,
                            start,
                            k as int + 1,
                            all.len() as int,
                        );
                    }
                    return Err(m);
                },
                Some(body) => {
                    let mut name = String::new();
                    push_text(&mut name, "NULLDEF_");
                    push_text(&mut name, class);
                    assert(name@ =~= "NULLDEF_"@ + class@);
                    let preamble = EntryPreamble {
                        is_real: false,
                        is_template: false,
                        unknown_0: 0,
                    };
                    match hold_names(table, class, name.as_str()) {
                        Ok(at) => self.add(class, at, preamble, body.clone(), tables),
                        Err(e) => {
                            let m = null_message(class, &e);
                            proof {
                                assert(null_entries(
                                    strings,
                                    listed,
                                    bodies,
                                    all,
                                    start,
                                    k as int + 1,
                                ) == (Err::<Emitted, Seq<char>>(m@), table@));
                                lemma_null_entry_error(
                                    strings,
                                    listed,
                                    bodies,
                                    all,
                                    start,
                                    k as int + 1,
                                    all.len() as int,
                                );
                            }
                            return Err(m);
                        },
                    }
                },
            }
            k = k + 1;
        }
        Ok(())
    }
}

// ── Named definitions ────────────────────────────────────────────────────────

/// What a definition is lowered to, and the strings of the table then: its statements and
/// those of its ancestors are lowered onto the null definition of its class.
pub open spec fn named_body(
    link: LinkView,
    strings: Seq<Seq<char>>,
    nulls: Seq<NullView>,
    defs: Seq<DefinitionView>,
    names: Map<Seq<char>, usize>,
    i: usize,
) -> (Result<BodyView, LowerErrorView>, Seq<Seq<char>>) {
    match body::flattened(defs, names, i) {
        Err(x) => (Err(x), strings),
        Ok(statements) => {
            let class = defs[i as int].def_type;
            linking::lowering(
                link,
                strings,
                TaskView { class, base: null_of(nulls, class, 0), body: statements },
            )
        },
    }
}

/// Lowers a definition and its ancestors onto the null definition of its class. The strings
/// that it asks for are added to the table.
pub fn lower_named<E: LowerEnv>(
    types: &DefTypes,
    nulls: &Vec<NullDef>,
    defs: &Vec<&Definition>,
    names: &NameMap<usize>,
    i: usize,
    symbols: &SymbolTable,
    env: &E,
    table: &mut NamesBuilder,
) -> (r: Result<DefBody, LowerError>)
    requires
        old(table).wf(),
        i < defs@.len(),
        body::names_defs(names@, defs@.len() as int),
    ensures
        final(table).wf(),
        (linking::lowered_body(r), final(table)@) == named_body(
            linking::link_of(types, symbols@, env),
            old(table)@,
            base::views(nulls@),
            base::views(defs@),
            names@,
            i,
        ),
{
    let statements = match flatten_specialization(i, defs, names) {
        Ok(v) => v,
        Err(e) => return Err(e),
    };
    let class = defs[i].def_type.as_str();
    proof {
        assert(base::views(defs@)[i as int] == defs@[i as int]@);
    }
    lower_interning(types, class, find_null(nulls, class), &statements, symbols, env, table)
}

/// What the named definitions give: their entries, the strings of the table, what is said
/// of those that fail, and how many fail.
pub struct NamedOutcome {
    pub emitted: Emitted,
    pub strings: Seq<Seq<char>>,
    pub said: Seq<DiagnosticView>,
    pub failed: nat,
}

/// The places of definitions by name, and the text of each source file.
pub struct SourcesView {
    pub places: Map<Seq<char>, DefPlace>,
    pub texts: Seq<Seq<char>>,
}

impl SourcesView {
    /// Where a definition stands.
    pub open spec fn place(self, name: Seq<char>) -> Option<DefPlace> {
        if self.places.contains_key(name) {
            Some(self.places[name])
        } else {
            None
        }
    }

    /// The text of the file of a definition.
    pub open spec fn text(self, name: Seq<char>) -> Seq<char> {
        match self.place(name) {
            Some(p) => if p.source < self.texts.len() {
                self.texts[p.source as int]
            } else {
                Seq::empty()
            },
            None => Seq::empty(),
        }
    }
}

/// The texts of source files.
pub open spec fn texts_of(sources: Seq<SourceFile>) -> Seq<Seq<char>> {
    Seq::new(sources.len(), |i: int| sources[i].text@)
}

/// What is said of a definition that fails.
pub open spec fn named_failure(
    o: NamedOutcome,
    strings: Seq<Seq<char>>,
    name: Seq<char>,
    class: Seq<char>,
    x: LowerErrorView,
    sources: SourcesView,
) -> NamedOutcome {
    NamedOutcome {
        strings,
        said: o.said.push(
            reports::lowering_error(name, class, x, sources.place(name), sources.text(name)),
        ),
        failed: o.failed + 1,
        ..o
    }
}

/// What one more name gives. The class of the definition is added to the table before the
/// name, and the name before the strings that the definition asks for.
pub open spec fn named_step(
    link: LinkView,
    tables: Seq<Seq<char>>,
    nulls: Seq<NullView>,
    defs: Seq<DefinitionView>,
    names: Map<Seq<char>, usize>,
    sources: SourcesView,
    o: NamedOutcome,
    name: Seq<char>,
) -> NamedOutcome {
    if !names.contains_key(name) {
        NamedOutcome {
            said: o.said.push(
                DiagnosticView {
                    severity: Severity::Error,
                    message: "definition "@ + name + " not found in parsed corpus"@,
                    labels: Seq::empty(),
                    notes: Seq::empty(),
                },
            ),
            failed: o.failed + 1,
            ..o
        }
    } else {
        let i = names[name];
        let class = defs[i as int].def_type;
        let s = names::held(names::held(o.strings, class), name);
        match offsets(s, class, name) {
            Err(x) => named_failure(o, s, name, class, x, sources),
            Ok(at) => match named_body(link, s, nulls, defs, names, i) {
                (Ok(body), s) => NamedOutcome {
                    emitted: with_entry(tables, o.emitted, class, at, named_preamble(), body),
                    strings: s,
                    ..o
                },
                (Err(x), s) => named_failure(o, s, name, class, x, sources),
            },
        }
    }
}

/// What the first `k` names give.
pub open spec fn named_upto(
    link: LinkView,
    tables: Seq<Seq<char>>,
    nulls: Seq<NullView>,
    defs: Seq<DefinitionView>,
    names: Map<Seq<char>, usize>,
    sources: SourcesView,
    o: NamedOutcome,
    order: Seq<Seq<char>>,
    k: int,
) -> NamedOutcome
    decreases k,
{
    if k <= 0 || k > order.len() {
        o
    } else {
        named_step(
            link,
            tables,
            nulls,
            defs,
            names,
            sources,
            named_upto(link, tables, nulls, defs, names, sources, o, order, k - 1),
            order[k - 1],
        )
    }
}

fn source_text<'a>(sources: &'a Vec<SourceFile>, place: Option<DefPlace>) -> (r: &'a str)
    ensures
        r@ == (match place {
            Some(p) => if p.source < sources@.len() {
                texts_of(sources@)[p.source as int]
            } else {
                Seq::empty()
            },
            None => Seq::empty(),
        }),
{
    match place {
        Some(p) => if p.source < sources.len() {
            sources[p.source].text.as_str()
        } else {
            proof {
                reveal_strlit("");
            }
            ""
        },
        None => {
            proof {
                reveal_strlit("");
            }
            ""
        },
    }
}

/// What is said where `count` of something failed to compile.
pub open spec fn failure_text(count: nat, what: Seq<char>) -> Seq<char> {
    strings::nat_text(count) + " "@ + what + (if count == 1 {
        ""@
    } else {
        "s"@
    }) + " failed to compile"@
}

/// Says how many of something failed to compile.
pub fn failure_message(count: usize, what: &str) -> (r: String)
    ensures
        r@ == failure_text(count as nat, what@),
{
    let mut m = String::new();
    push_nat(&mut m, count as u64);
    push_text(&mut m, " ");
    push_text(&mut m, what);
    push_text(
        &mut m,
        if count == 1 {
            ""
        } else {
            "s"
        },
    );
    push_text(&mut m, " failed to compile");
    m
}

impl Entries {
    fn emit_one<E: LowerEnv>(
        &mut self,
        name: &str,
        types: &DefTypes,
        tables: &Vec<&str>,
        nulls: &Vec<NullDef>,
        defs: &Vec<&Definition>,
        names: &NameMap<usize>,
        places: &NameMap<DefPlace>,
        sources: &Vec<SourceFile>,
        symbols: &SymbolTable,
        env: &E,
        table: &mut NamesBuilder,
        diagnostics: &mut Diagnostics,
        before: Ghost<NamedOutcome>,
    ) -> (r: bool)
        requires
            old(table).wf(),
            body::names_defs(names@, defs@.len() as int),
            counts_upto(old(self)@.counters, old(self)@.entries.len() as int),
            old(self)@.entries.len() < u32::MAX,
            before@.emitted == old(self)@,
            before@.strings == old(table)@,
            before@.said == old(diagnostics)@,
        ensures
            final(table).wf(),
            counts_upto(final(self)@.counters, final(self)@.entries.len() as int),
            final(self)@.entries.len() <= old(self)@.entries.len() + 1,
            (NamedOutcome {
                emitted: final(self)@,
                strings: final(table)@,
                said: final(diagnostics)@,
                failed: if r {
                    before@.failed
                } else {
                    before@.failed + 1
                },
            }) == named_step(
                linking::link_of(types, symbols@, env),
                base::views(tables@),
                base::views(nulls@),
                base::views(defs@),
                names@,
                SourcesView { places: places@, texts: texts_of(sources@) },
                before@,
                name@,
            ),
    {
        let i: usize = match names.get(name) {
            Some(i) => i,
            None => {
                let mut m = String::new();
                push_text(&mut m, "definition ");
                push_text(&mut m, name);
                push_text(&mut m, " not found in parsed corpus");
                diagnostics.push(BuildDiagnostic::bare(Severity::Error, m));
                return false;
            },
        };
        assert(names@[name@] == i);
        assert(base::views(defs@)[i as int] == defs@[i as int]@);
        let class = defs[i].def_type.as_str();
        let at = match hold_names(table, class, name) {
            Ok(at) => at,
            Err(e) => {
                let place = places.get(name);
                let text = source_text(sources, place);
                diagnostics.push(lowering_error_diagnostic(name, class, &e, place, text));
                return false;
            },
        };
        match lower_named(types, nulls, defs, names, i, symbols, env, table) {
            Ok(body) => {
                let preamble = EntryPreamble { is_real: true, is_template: false, unknown_0: 1 };
                self.add(class, at, preamble, body, tables);
                true
            },
            Err(e) => {
                let place = places.get(name);
                let text = source_text(sources, place);
                diagnostics.push(lowering_error_diagnostic(name, class, &e, place, text));
                false
            },
        }
    }

    /// Adds the entries of named definitions. What fails is said, and counted in the
    /// result. The classes, the names and the strings that the definitions ask for are
    /// added to the table.
    pub fn emit_named<E: LowerEnv>(
        &mut self,
        order: &Vec<String>,
        types: &DefTypes,
        tables: &Vec<&str>,
        nulls: &Vec<NullDef>,
        defs: &Vec<&Definition>,
        names: &NameMap<usize>,
        places: &NameMap<DefPlace>,
        sources: &Vec<SourceFile>,
        symbols: &SymbolTable,
        env: &E,
        table: &mut NamesBuilder,
        diagnostics: &mut Diagnostics,
    ) -> (r: usize)
        requires
            old(table).wf(),
            body::names_defs(names@, defs@.len() as int),
            counts_upto(old(self)@.counters, old(self)@.entries.len() as int),
            old(self)@.entries.len() + order@.len() < u32::MAX,
        ensures
            final(table).wf(),
            (NamedOutcome {
                emitted: final(self)@,
                strings: final(table)@,
                said: final(diagnostics)@,
                failed: r as nat,
            }) == named_upto(
                linking::link_of(types, symbols@, env),
                base::views(tables@),
                base::views(nulls@),
                base::views(defs@),
                names@,
                SourcesView { places: places@, texts: texts_of(sources@) },
                NamedOutcome {
                    emitted: old(self)@,
                    strings: old(table)@,
                    said: old(diagnostics)@,
                    failed: 0,
                },
                base::views(order@),
                order@.len() as int,
            ),
            counts_upto(final(self)@.counters, final(self)@.entries.len() as int),
    {
        let ghost link = linking::link_of(types, symbols@, env);
        let ghost bodies = base::views(nulls@);
        let ghost listed = base::views(tables@);
        let ghost all = base::views(defs@);
        let ghost texts = SourcesView { places: places@, texts: texts_of(sources@) };
        let ghost start = NamedOutcome {
            emitted: self@,
            strings: table@,
            said: diagnostics@,
            failed: 0,
        };
        let ghost wanted = base::views(order@);
        let mut failed: usize = 0;
        let mut k: usize = 0;
        while k < order.len()
            invariant
                k <= order@.len(),
                failed <= k,
                table.wf(),
                body::names_defs(names@, defs@.len() as int),
                link == linking::link_of(types, symbols@, env),
                bodies == base::views(nulls@),
                listed == base::views(tables@),
                all == base::views(defs@),
                texts == (SourcesView { places: places@, texts: texts_of(sources@) }),
                wanted == base::views(order@),
                start.emitted.entries.len() + order@.len() < u32::MAX,
                self@.entries.len() <= start.emitted.entries.len() + k,
                counts_upto(self@.counters, self@.entries.len() as int),
                (NamedOutcome {
                    emitted: self@,
                    strings: table@,
                    said: diagnostics@,
                    failed: failed as nat,
                }) == named_upto(
                    link,
                    listed,
                    bodies,
                    all,
                    names@,
                    texts,
                    start,
                    wanted,
                    k as int,
                ),
            decreases order@.len() - k,
        {
            assert(wanted[k as int] == order@[k as int]@);
            let ghost before = NamedOutcome {
                emitted: self@,
                strings: table@,
                said: diagnostics@,
                failed: failed as nat,
            };
            let ok = self.emit_one(
                order[k].as_str(),
                types,
                tables,
                nulls,
                defs,
                names,
                places,
                sources,
                symbols,
                env,
                table,
                diagnostics,
                Ghost(before),
            );
            if !ok {
                failed = failed + 1;
            }
            k = k + 1;
        }
        failed
    }
}

} // verus!
