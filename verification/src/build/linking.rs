//! Definitions and the table of names: what a definition is lowered to against the strings
//! of a table, and the strings that lowering it adds.

use vstd::prelude::*;

use crate::eval::Symbols;
use crate::lower::asking;
use crate::lower::asking::{strings_first, strings_last};
use crate::lower::controls::ControlEnums;
use crate::lower::def;
use crate::lower::def::{lower_def, BodyView, DefBody, DefTypes, TypeView};
use crate::lower::env;
use crate::lower::env::{Context, Fields, LowerEnv, LowerError, LowerErrorView};
use crate::lower::keeping;
use crate::name_map::NameMap;
use crate::names;
use crate::names::NamesBuilder;
use crate::strings::same;
use crate::text::ast::{Statement, StatementView};
use crate::text::base;
use crate::text::base::Spanned;
use crate::text::symbols::SymbolTable;
use crate::value::Record;

verus! {

broadcast use base::group_views;

/// Named definitions by their indices. What is derived is that of an environment.
pub struct Indexed<'a, B> {
    indices: &'a NameMap<u32>,
    base: &'a B,
}

impl<'a, B> Indexed<'a, B> {
    /// The indices of the definitions.
    pub closed spec fn defs(self) -> Map<Seq<char>, u32> {
        self.indices@
    }

    /// The environment.
    pub closed spec fn base(self) -> B {
        *self.base
    }

    /// Definitions by their indices, with what an environment derives.
    pub fn new(indices: &'a NameMap<u32>, base: &'a B) -> (r: Indexed<'a, B>)
        ensures
            r.defs() == indices@,
            r.base() == *base,
    {
        Indexed { indices, base }
    }
}

impl<'a, B: LowerEnv> LowerEnv for Indexed<'a, B> {
    open spec fn index_of(&self, name: Seq<char>) -> Option<u32> {
        if self.defs().contains_key(name) {
            Some(self.defs()[name])
        } else {
            None
        }
    }

    open spec fn offset_of(&self, string: Seq<char>) -> Option<u32> {
        self.base().offset_of(string)
    }

    open spec fn with_reactions(&self, fields: Fields) -> Fields {
        self.base().with_reactions(fields)
    }

    open spec fn with_opinions(&self, fields: Fields) -> Fields {
        self.base().with_opinions(fields)
    }

    fn def_index(&self, name: &str) -> (r: Option<u32>) {
        self.indices.get(name)
    }

    fn def_string_offset(&self, string: &str) -> (r: Option<u32>) {
        self.base.def_string_offset(string)
    }

    fn derive_binary_reactions(&self, record: Record) -> (r: Record) {
        self.base.derive_binary_reactions(record)
    }

    fn derive_binary_opinions(&self, record: Record) -> (r: Record) {
        self.base.derive_binary_opinions(record)
    }
}

/// An environment with the strings of a table of names.
///
/// The definitions are those of the environment, and so is what is derived. Asking for a
/// string adds nothing: one that is not in the table has no offset. The table may be seen
/// with one more string.
pub struct Linked<'a, B> {
    base: &'a B,
    names: &'a NamesBuilder,
    more: Option<&'a str>,
}

impl<'a, B> Linked<'a, B> {
    #[verifier::type_invariant]
    spec fn inv(self) -> bool {
        self.names.wf() && (self.more matches Some(s) ==> !self.names@.contains(s@)
            && names::fits(self.names@, s@))
    }

    /// The environment.
    pub closed spec fn base(self) -> B {
        *self.base
    }

    /// The strings of the table.
    pub closed spec fn strings(self) -> Seq<Seq<char>> {
        match self.more {
            Some(s) => self.names@.push(s@),
            None => self.names@,
        }
    }

    /// An environment with the strings of a table.
    pub fn new(base: &'a B, names: &'a NamesBuilder) -> (r: Linked<'a, B>)
        requires
            names.wf(),
        ensures
            r.base() == *base,
            r.strings() == names@,
    {
        Linked { base, names, more: None }
    }

    /// An environment with the strings of a table and one more.
    pub fn with(base: &'a B, names: &'a NamesBuilder, s: &'a str) -> (r: Linked<'a, B>)
        requires
            names.wf(),
            !names@.contains(s@),
            names::fits(names@, s@),
        ensures
            r.base() == *base,
            r.strings() == names@.push(s@),
    {
        Linked { base, names, more: Some(s) }
    }
}

impl<'a, B: LowerEnv> LowerEnv for Linked<'a, B> {
    open spec fn index_of(&self, name: Seq<char>) -> Option<u32> {
        self.base().index_of(name)
    }

    open spec fn offset_of(&self, string: Seq<char>) -> Option<u32> {
        names::found_offset(self.strings(), string)
    }

    open spec fn with_reactions(&self, fields: Fields) -> Fields {
        self.base().with_reactions(fields)
    }

    open spec fn with_opinions(&self, fields: Fields) -> Fields {
        self.base().with_opinions(fields)
    }

    fn def_index(&self, name: &str) -> (r: Option<u32>) {
        self.base.def_index(name)
    }

    fn def_string_offset(&self, string: &str) -> (r: Option<u32>) {
        proof {
            use_type_invariant(self);
        }
        match self.more {
            Some(s) => self.names.lookup_with(s, string),
            None => self.names.lookup(string),
        }
    }

    fn derive_binary_reactions(&self, record: Record) -> (r: Record) {
        self.base.derive_binary_reactions(record)
    }

    fn derive_binary_opinions(&self, record: Record) -> (r: Record) {
        self.base.derive_binary_opinions(record)
    }
}

/// What lowering is done against.
pub struct LinkView {
    pub types: Seq<TypeView>,
    pub enums: ControlEnums,
    pub cx: Context,
}

/// What lowering is done against: types, symbols and an environment.
pub open spec fn link_of<B: LowerEnv>(types: &DefTypes, symbols: Symbols, env: &B) -> LinkView {
    LinkView {
        types: base::views(types.types@),
        enums: types.controls,
        cx: env::context(symbols, env),
    }
}

/// A context with the strings of a table.
pub open spec fn with_strings(cx: Context, strings: Seq<Seq<char>>) -> Context {
    Context { strings: |s: Seq<char>| names::found_offset(strings, s), ..cx }
}

proof fn lemma_linked<B: LowerEnv>(symbols: Symbols, env: &B, linked: &Linked<B>)
    requires
        linked.base() == *env,
    ensures
        env::context(symbols, linked) == with_strings(
            env::context(symbols, env),
            linked.strings(),
        ),
{
    let a = env::context(symbols, linked);
    let b = with_strings(env::context(symbols, env), linked.strings());
    assert(a.defs =~= b.defs);
    assert(a.strings =~= b.strings);
    assert(a.reactions =~= b.reactions);
    assert(a.opinions =~= b.opinions);
}

// ── Strings ──────────────────────────────────────────────────────────────────

/// A definition to lower: its class, what it is lowered onto, and its statements.
pub struct TaskView {
    pub class: Seq<char>,
    pub base: Option<BodyView>,
    pub body: Seq<Spanned<StatementView>>,
}

/// What a definition is lowered to against the strings of a table.
#[verifier::opaque]
pub open spec fn lowered_with(link: LinkView, strings: Seq<Seq<char>>, t: TaskView) -> Result<
    (BodyView, Seq<Spanned<StatementView>>),
    LowerErrorView,
> {
    def::lowered_def(
        link.types,
        link.enums,
        with_strings(link.cx, strings),
        t.class,
        t.base,
        t.body,
    )
}

/// The string at which lowering a definition stops because the table does not hold it. With
/// the string in the table lowering goes on; at a definition that is not there it does not,
/// whatever the table holds.
pub open spec fn missing(link: LinkView, strings: Seq<Seq<char>>, t: TaskView) -> Option<
    Seq<char>,
> {
    match lowered_with(link, strings, t) {
        Err(LowerErrorView::UnresolvedReference(s, span)) => if !strings.contains(s)
            && names::fits(strings, s) && lowered_with(link, strings.push(s), t) != Err::<
            (BodyView, Seq<Spanned<StatementView>>),
            LowerErrorView,
        >(LowerErrorView::UnresolvedReference(s, span)) {
            Some(s)
        } else {
            None
        },
        _ => None,
    }
}

/// The strings that lowering a definition misses, in the order in which it asks for them:
/// each is added when lowering stops at it.
pub open spec fn all_missing(link: LinkView, strings: Seq<Seq<char>>, t: TaskView) -> Seq<Seq<char>>
    decreases usize::MAX - names::position(strings, strings.len() as int),
{
    match missing(link, strings, t) {
        Some(s) => {
            proof {
                names::lemma_push(strings, s);
            }
            seq![s] + all_missing(link, strings.push(s), t)
        },
        None => Seq::empty(),
    }
}

/// The strings that lowering a definition asks for, in that order; of those that its fields
/// are set to, the ones that the table does not hold. Those that it asks for before its
/// fields are set come first; those that it asks for behind its fields come last, where its
/// fields can be set.
pub open spec fn asked(link: LinkView, strings: Seq<Seq<char>>, t: TaskView) -> Seq<Seq<char>> {
    let first = asking::asked_first(t.class, link.cx.symbols, t.body);
    let with_first = names::held_all(strings, first);
    let of_fields = all_missing(link, with_first, t);
    if lacks_font(with_first, t) {
        first
    } else if lowered_with(link, names::held_all(with_first, of_fields), t) is Ok {
        first + of_fields + asking::asked_last(t.class, t.body)
    } else {
        first + of_fields
    }
}

/// Whether there was no room for the default font of an element of the user interface.
pub open spec fn lacks_font(strings: Seq<Seq<char>>, t: TaskView) -> bool {
    t.class == "UI"@ && !strings.contains("ENG_ARIAL_16"@)
}

/// What a definition is lowered to against a table that holds what it asks for.
pub open spec fn lowered_against(link: LinkView, strings: Seq<Seq<char>>, t: TaskView) -> Result<
    BodyView,
    LowerErrorView,
> {
    if lacks_font(strings, t) {
        Err(LowerErrorView::UnresolvedReference("ENG_ARIAL_16"@, None))
    } else {
        match lowered_with(link, strings, t) {
            Ok((body, _)) => Ok(body),
            Err(x) => Err(x),
        }
    }
}

/// What a definition is lowered to, and the strings of the table then: those that lowering
/// asks for are added as it asks for them.
#[verifier::opaque]
pub open spec fn lowering(link: LinkView, strings: Seq<Seq<char>>, t: TaskView) -> (
    Result<BodyView, LowerErrorView>,
    Seq<Seq<char>>,
) {
    let all = names::held_all(strings, asked(link, strings, t));
    (lowered_against(link, all, t), all)
}

/// The view of a lowered definition.
pub open spec fn lowered_body(r: Result<DefBody, LowerError>) -> Result<BodyView, LowerErrorView> {
    match r {
        Ok(b) => Ok(b@),
        Err(e) => Err(e@),
    }
}

fn hold_all(names: &mut NamesBuilder, more: &Vec<String>)
    requires
        old(names).wf(),
    ensures
        final(names).wf(),
        final(names)@ == names::held_all(old(names)@, base::views(more@)),
{
    let ghost all = base::views(more@);
    let mut k: usize = 0;
    assert(all.take(0) =~= Seq::<Seq<char>>::empty());
    while k < more.len()
        invariant
            k <= more@.len(),
            all == base::views(more@),
            names.wf(),
            names@ == names::held_all(old(names)@, all.take(k as int)),
        decreases more@.len() - k,
    {
        let _ = names.hold(more[k].as_str());
        proof {
            let next = all.take(k as int + 1);
            assert(all[k as int] == more@[k as int]@);
            assert(next.drop_last() =~= all.take(k as int));
            assert(next.last() == all[k as int]);
        }
        k = k + 1;
    }
    assert(all.take(all.len() as int) =~= all);
}

/// Lowers a definition of the type `class` onto `base` against the strings of a table.
fn lower_with<B: LowerEnv>(
    types: &DefTypes,
    class: &str,
    base: Option<&DefBody>,
    body: &Vec<Spanned<Statement>>,
    symbols: &SymbolTable,
    env: &B,
    linked: &Linked<B>,
) -> (r: Result<(DefBody, Vec<Spanned<Statement>>), LowerError>)
    requires
        linked.base() == *env,
        class@ == "UI"@ ==> linked.strings().contains("ENG_ARIAL_16"@),
    ensures
        def::body_view(r) == lowered_with(
            link_of(types, symbols@, env),
            linked.strings(),
            TaskView { class: class@, base: def::body_opt(base), body: base::views(body@) },
        ),
{
    proof {
        reveal(lowered_with);
        lemma_linked(symbols@, env, linked);
    }
    lower_def(types, class, base, body, symbols, linked)
}

/// The string that an error says is not resolved.
fn unresolved<T>(r0: &Result<T, LowerError>) -> (r: Option<String>)
    ensures
        base::opt_text(r) == (match *r0 {
            Err(LowerError::UnresolvedReference(s, _)) => Some(s@),
            _ => None,
        }),
{
    match r0 {
        Err(LowerError::UnresolvedReference(s, _)) => Some(s.clone()),
        _ => None,
    }
}

/// Whether two lowerings stop at one reference in one place.
fn stop_alike<T>(a: &Result<T, LowerError>, b: &Result<T, LowerError>) -> (r: bool)
    ensures
        r == (match (*a, *b) {
            (
                Err(LowerError::UnresolvedReference(s, x)),
                Err(LowerError::UnresolvedReference(t, y)),
            ) => s@ == t@ && x == y,
            _ => false,
        }),
{
    match (a, b) {
        (
            Err(LowerError::UnresolvedReference(s, x)),
            Err(LowerError::UnresolvedReference(t, y)),
        ) => same(s.as_str(), t.as_str()) && match (x, y) {
            (Some(x), Some(y)) => *x == *y,
            (None, None) => true,
            _ => false,
        },
        _ => false,
    }
}

/// Lowers a definition of the type `class` onto `base`. The strings that it asks for are
/// added to the table in the order in which it asks for them. Where there is no room for
/// one, lowering stops at it.
pub fn lower_interning<B: LowerEnv>(
    types: &DefTypes,
    class: &str,
    base: Option<&DefBody>,
    body: &Vec<Spanned<Statement>>,
    symbols: &SymbolTable,
    env: &B,
    names: &mut NamesBuilder,
) -> (r: Result<DefBody, LowerError>)
    requires
        old(names).wf(),
    ensures
        final(names).wf(),
        (lowered_body(r), final(names)@) == lowering(
            link_of(types, symbols@, env),
            old(names)@,
            TaskView { class: class@, base: def::body_opt(base), body: base::views(body@) },
        ),
{
    proof {
        reveal(lowering);
    }
    let ghost link = link_of(types, symbols@, env);
    let ghost t = TaskView { class: class@, base: def::body_opt(base), body: base::views(body@) };
    let ghost start = names@;
    let first = strings_first(class, symbols, body);
    hold_all(names, &first);
    let ghost with_first = names@;
    let font = "ENG_ARIAL_16";
    if same(class, "UI") && names.lookup(font).is_none() {
        return Err(LowerError::UnresolvedReference(font.to_owned(), None));
    }
    assert(!lacks_font(with_first, t));
    let ghost mut done: Seq<Seq<char>> = Seq::empty();
    let mut r = lower_with(types, class, base, body, symbols, env, &Linked::new(env, names));
    let mut going = true;
    assert(done + all_missing(link, with_first, t) =~= all_missing(link, with_first, t));
    while going
        invariant
            names.wf(),
            link == link_of(types, symbols@, env),
            t == (TaskView { class: class@, base: def::body_opt(base), body: base::views(body@) }),
            !lacks_font(names@, t),
            names@ == names::held_all(with_first, done),
            done + all_missing(link, names@, t) == all_missing(link, with_first, t),
            def::body_view(r) == lowered_with(link, names@, t),
            !going ==> missing(link, names@, t) is None,
        decreases
            usize::MAX - names::position(names@, names@.len() as int),
            if going {
                1int
            } else {
                0
            },
    {
        match unresolved(&r) {
            Some(s) if names.can_add(s.as_str()) => {
                let ghost before = names@;
                proof {
                    names::interned_strings_keep_their_offsets(before, s@, "ENG_ARIAL_16"@);
                }
                let next = lower_with(
                    types,
                    class,
                    base,
                    body,
                    symbols,
                    env,
                    &Linked::with(env, names, s.as_str()),
                );
                if stop_alike(&r, &next) {
                    going = false;
                } else {
                    let _ = names.hold(s.as_str());
                    r = next;
                    proof {
                        names::lemma_push(before, s@);
                        let more = done.push(s@);
                        assert(more.drop_last() =~= done);
                        assert(done + (seq![s@] + all_missing(link, before.push(s@), t)) =~= more
                            + all_missing(link, before.push(s@), t));
                        done = more;
                    }
                }
            },
            _ => {
                going = false;
            },
        }
    }
    let ghost of_fields = all_missing(link, with_first, t);
    let ghost with_fields = names@;
    proof {
        assert(done =~= of_fields);
        names::lemma_held_concat(start, base::views(first@), of_fields);
    }
    if r.is_ok() {
        let last = strings_last(class, body);
        proof {
            let l = base::views(last@);
            names::lemma_held_concat(start, base::views(first@) + of_fields, l);
        }
        if last.len() > 0 {
            hold_all(names, &last);
            proof {
                names::lemma_held_keeps(with_fields, base::views(last@), "ENG_ARIAL_16"@);
            }
            r = lower_with(types, class, base, body, symbols, env, &Linked::new(env, names));
        }
    }
    match r {
        Ok((b, _)) => Ok(b),
        Err(e) => Err(e),
    }
}

// ── Laws ─────────────────────────────────────────────────────────────────────

/// With the strings that it misses in the table, lowering a definition misses none.
pub proof fn nothing_is_missing_in_the_end(link: LinkView, strings: Seq<Seq<char>>, t: TaskView)
    ensures
        missing(link, names::held_all(strings, all_missing(link, strings, t)), t) is None,
    decreases usize::MAX - names::position(strings, strings.len() as int),
{
    match missing(link, strings, t) {
        Some(s) => {
            let rest = all_missing(link, strings.push(s), t);
            names::lemma_push(strings, s);
            nothing_is_missing_in_the_end(link, strings.push(s), t);
            names::lemma_held_concat(strings, seq![s], rest);
            reveal_with_fuel(names::held_all, 2);
            assert(seq![s].drop_last() =~= Seq::<Seq<char>>::empty());
        },
        None => {},
    }
}

/// The strings that lowering a definition misses are not in the table, and no two are the
/// same.
pub proof fn what_is_missing_is_new(link: LinkView, strings: Seq<Seq<char>>, t: TaskView)
    ensures
        ({
            let v = all_missing(link, strings, t);
            &&& forall|i: int| 0 <= i < v.len() ==> !strings.contains(#[trigger] v[i])
            &&& v.no_duplicates()
        }),
    decreases usize::MAX - names::position(strings, strings.len() as int),
{
    match missing(link, strings, t) {
        Some(s) => {
            let more = strings.push(s);
            let rest = all_missing(link, more, t);
            let v = all_missing(link, strings, t);
            names::lemma_push(strings, s);
            what_is_missing_is_new(link, more, t);
            assert(more[strings.len() as int] == s);
            assert forall|i: int| 0 <= i < rest.len() implies !strings.contains(
                #[trigger] rest[i],
            ) && rest[i] != s by {
                names::interned_strings_keep_their_offsets(strings, s, rest[i]);
            }
            assert(v =~= seq![s] + rest);
            assert forall|i: int, j: int| 0 <= i < j < v.len() implies v[i] != v[j] by {
                assert(v[j] == rest[j - 1]);
                if i > 0 {
                    assert(v[i] == rest[i - 1]);
                }
            }
        },
        None => {},
    }
}

proof fn lemma_with_strings(cx: Context, strings: Seq<Seq<char>>, more: Seq<Seq<char>>)
    ensures
        keeping::grows(
            with_strings(cx, strings),
            with_strings(cx, names::held_all(strings, more)),
        ),
{
    let a = with_strings(cx, strings);
    let b = with_strings(cx, names::held_all(strings, more));
    assert forall|s: Seq<char>| (#[trigger] (a.strings)(s)) is Some implies (b.strings)(s) == (
    a.strings)(s) by {
        names::lemma_held_keeps(strings, more, s);
    }
}

proof fn lemma_held_known(cx: Context, strings: Seq<Seq<char>>, v: Seq<Seq<char>>, w: Seq<Seq<char>>)
    requires
        forall|i: int| 0 <= i < w.len() ==> strings.contains(#[trigger] w[i]),
        forall|i: int| 0 <= i < v.len() ==> w.contains(#[trigger] v[i]),
    ensures
        keeping::all_known(with_strings(cx, strings), v),
{
    let a = with_strings(cx, strings);
    assert forall|i: int| 0 <= i < v.len() implies (a.strings)(#[trigger] v[i]) is Some by {
        assert(w.contains(v[i]));
        let j = choose|j: int| 0 <= j < w.len() && w[j] == v[i];
        assert(strings.contains(w[j]));
    }
}

/// Whatever is added to the table later, a definition that was lowered is what it would be
/// lowered to then: its offsets are those of the same strings. For the strings that it asked
/// for there was room.
pub proof fn a_lowered_definition_stays(
    link: LinkView,
    strings: Seq<Seq<char>>,
    t: TaskView,
    more: Seq<Seq<char>>,
)
    requires
        forall|i: int|
            0 <= i < asked(link, strings, t).len() ==> names::held_all(
                strings,
                asked(link, strings, t),
            ).contains(#[trigger] asked(link, strings, t)[i]),
    ensures
        ({
            let (r, all) = lowering(link, strings, t);
            r is Ok ==> lowered_against(link, names::held_all(all, more), t) == r
        }),
{
    reveal(lowering);
    reveal(lowered_with);
    let first = asking::asked_first(t.class, link.cx.symbols, t.body);
    let last = asking::asked_last(t.class, t.body);
    let with_first = names::held_all(strings, first);
    let of_fields = all_missing(link, with_first, t);
    let wanted = asked(link, strings, t);
    let all = names::held_all(strings, wanted);
    if lowering(link, strings, t).0 is Ok {
        names::lemma_held_concat(strings, first, of_fields);
        assert(wanted == first + of_fields + last);
        assert forall|i: int| 0 <= i < first.len() implies wanted.contains(#[trigger] first[i]) by {
            assert(wanted[i] == first[i]);
        }
        assert forall|i: int| 0 <= i < last.len() implies wanted.contains(#[trigger] last[i]) by {
            assert(wanted[first.len() + of_fields.len() + i] == last[i]);
        }
        lemma_held_known(link.cx, all, first, wanted);
        lemma_held_known(link.cx, all, last, wanted);
        lemma_with_strings(link.cx, all, more);
        names::lemma_held_keeps(all, more, "ENG_ARIAL_16"@);
        keeping::a_lowered_definition_is_kept(
            with_strings(link.cx, all),
            with_strings(link.cx, names::held_all(all, more)),
            link.types,
            link.enums,
            t.class,
            t.base,
            t.body,
        );
    }
}

} // verus!
