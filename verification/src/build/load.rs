//! Reading the sources of a build: headers into symbols, and files of definitions.

use vstd::prelude::*;

use crate::build::corpus::{inject_engine_enums, FileView, ParsedFile};
use crate::build::corpus;
use crate::build::diagnostics::{
    DiagnosticView, Diagnostics, ReadView, SourceFile,
};
use crate::build::reports;
use crate::build::reports::{
    parse_error_diagnostic, report_redefinitions, symbol_eval_diagnostic, DefPlace,
};
use crate::bytes;
use crate::bytes::decode_lossy;
use crate::name_map::NameMap;
use crate::strings;
use crate::strings::{push_nat, push_text};
use crate::text::ast;
use crate::text::ast::{Definition, DefinitionView, Item, ItemView};
use crate::text::base;
use crate::text::base::{FileId, Spanned};
use crate::text::grammar;
use crate::text::parser::parse_source;
use crate::text::symbols;
use crate::text::symbols::{Evaluation, SymbolTable};

verus! {

broadcast use base::group_views;

/// The sources of a build.
pub struct Corpus {
    /// The files of definitions that parse.
    pub files: Vec<ParsedFile>,
    /// The number of the source of each of them.
    pub file_sources: Vec<usize>,
    pub symbols: SymbolTable,
    /// Everything that was read, headers included.
    pub sources: Vec<SourceFile>,
    /// Where each definition stands.
    pub places: NameMap<DefPlace>,
}

/// What a [`Corpus`] holds.
pub struct CorpusView {
    pub files: Seq<FileView>,
    pub file_sources: Seq<usize>,
    pub symbols: Map<Seq<char>, i64>,
    pub sources: Seq<ReadView>,
    pub places: Map<Seq<char>, DefPlace>,
}

impl View for Corpus {
    type V = CorpusView;

    open spec fn view(&self) -> CorpusView {
        CorpusView {
            files: base::views(self.files@),
            file_sources: self.file_sources@,
            symbols: self.symbols@,
            sources: base::views(self.sources@),
            places: self.places@,
        }
    }
}

/// A corpus and what was said of it.
pub struct Loading {
    pub corpus: CorpusView,
    pub said: Seq<DiagnosticView>,
}

/// What evaluating the declarations of a file gives: its symbols, a warning for each
/// that is redefined, and an error where a value cannot be computed.
pub open spec fn evaluated(l: Loading, source: usize, items: Seq<ItemView>) -> Loading {
    let start = Evaluation { table: l.corpus.symbols, redefined: Seq::empty(), error: None };
    let end = symbols::items_from(start, items, 0);
    Loading {
        corpus: CorpusView { symbols: end.table, ..l.corpus },
        said: match end.error {
            None => l.said + reports::redefinition_warnings(source, end.redefined),
            Some(e) => l.said.push(reports::symbol_error(source, e)),
        },
    }
}

/// The corpus with one more source.
pub open spec fn with_source(c: CorpusView, file: ReadView) -> CorpusView {
    CorpusView { sources: c.sources.push(file), ..c }
}

/// What one more header gives.
pub open spec fn with_header(l: Loading, file: ReadView) -> Loading {
    let source = l.corpus.sources.len();
    let read = Loading { corpus: with_source(l.corpus, file), said: l.said };
    match grammar::source(file.text, FileId(source as u32)) {
        Err(e) => Loading { said: l.said.push(reports::parse_error(source as usize, e)), ..read },
        Ok(f) => evaluated(read, source as usize, f.items),
    }
}

/// The places of definitions with those of the first `k` of a file; the later of two
/// with one name counts.
pub open spec fn places_upto(
    places: Map<Seq<char>, DefPlace>,
    source: usize,
    defs: Seq<Spanned<DefinitionView>>,
    k: int,
) -> Map<Seq<char>, DefPlace>
    decreases k,
{
    if k <= 0 || k > defs.len() {
        places
    } else {
        places_upto(places, source, defs, k - 1).insert(
            defs[k - 1].value.name,
            DefPlace { source, span: defs[k - 1].span },
        )
    }
}

/// What one more file of definitions gives.
pub open spec fn with_file(l: Loading, file: ReadView) -> Loading {
    let source = l.corpus.sources.len();
    let c = with_source(l.corpus, file);
    match grammar::source(file.text, FileId(source as u32)) {
        Err(e) => Loading { corpus: c, said: l.said.push(reports::parse_error(source as usize, e)) },
        Ok(f) => {
            let defs = ast::definitions_of(f.items);
            Loading {
                corpus: CorpusView {
                    files: c.files.push(FileView { path: file.path, def_file: f }),
                    file_sources: c.file_sources.push(source as usize),
                    places: places_upto(c.places, source as usize, defs, defs.len() as int),
                    ..c
                },
                said: l.said,
            }
        },
    }
}

/// What evaluating the declarations of the first `k` files gives.
pub open spec fn evaluated_files(l: Loading, k: int) -> Loading
    decreases k,
{
    if k <= 0 || k > l.corpus.files.len() {
        l
    } else {
        evaluated(
            evaluated_files(l, k - 1),
            l.corpus.file_sources[k - 1],
            l.corpus.files[k - 1].def_file.items,
        )
    }
}

proof fn lemma_evaluated_files(l: Loading, k: int)
    ensures
        evaluated_files(l, k).corpus.files == l.corpus.files,
        evaluated_files(l, k).corpus.file_sources == l.corpus.file_sources,
        evaluated_files(l, k).corpus.sources == l.corpus.sources,
        evaluated_files(l, k).corpus.places == l.corpus.places,
    decreases k,
{
    if 0 < k <= l.corpus.files.len() {
        lemma_evaluated_files(l, k - 1);
    }
}

impl Corpus {
    /// Every file has a number of a source, and every expression of an enumeration its
    /// terms.
    pub open spec fn wf(&self) -> bool {
        &&& self.file_sources@.len() == self.files@.len()
        &&& forall|i: int|
            0 <= i < self.file_sources@.len() ==> (#[trigger] self.file_sources@[i])
                < self.sources@.len()
        &&& forall|i: int|
            0 <= i < self.files@.len() ==> ast::all_sound(
                (#[trigger] self.files@[i]).def_file@.items,
            )
    }

    /// No sources.
    pub fn new() -> (r: Corpus)
        ensures
            r.wf(),
            r@ == (CorpusView {
                files: Seq::empty(),
                file_sources: Seq::empty(),
                symbols: Map::empty(),
                sources: Seq::empty(),
                places: Map::empty(),
            }),
    {
        Corpus {
            files: Vec::new(),
            file_sources: Vec::new(),
            symbols: SymbolTable::new(),
            sources: Vec::new(),
            places: NameMap::new(),
        }
    }

    /// Evaluates the declarations of a source.
    fn evaluate_items(
        symbols: &mut SymbolTable,
        source: usize,
        items: &Vec<Item>,
        diagnostics: &mut Diagnostics,
    )
        requires
            ast::all_sound(base::views(items@)),
        ensures
            ({
                let start = Evaluation {
                    table: old(symbols)@,
                    redefined: Seq::empty(),
                    error: None,
                };
                let end = symbols::items_from(start, base::views(items@), 0);
                &&& final(symbols)@ == end.table
                &&& final(diagnostics)@ == (match end.error {
                    None => old(diagnostics)@ + reports::redefinition_warnings(
                        source,
                        end.redefined,
                    ),
                    Some(e) => old(diagnostics)@.push(reports::symbol_error(source, e)),
                })
            }),
    {
        match symbols.evaluate_located(items) {
            Ok(redefined) => report_redefinitions(source, &redefined, diagnostics),
            Err(e) => diagnostics.push(symbol_eval_diagnostic(source, &e)),
        }
    }

    /// Adds a header: its declarations are evaluated at once. A header that does not
    /// parse, or whose values cannot be computed, is an error.
    pub fn add_header(&mut self, path: String, text: String, diagnostics: &mut Diagnostics)
        requires
            old(self).wf(),
            old(self)@.sources.len() < u32::MAX,
        ensures
            final(self).wf(),
            (Loading { corpus: final(self)@, said: final(diagnostics)@ }) == with_header(
                Loading { corpus: old(self)@, said: old(diagnostics)@ },
                ReadView { path: path@, text: text@ },
            ),
    {
        let source: usize = self.sources.len();
        let ghost before = self@;
        let parsed = parse_source(text.as_str(), FileId(source as u32));
        self.sources.push(SourceFile { path, text });
        match parsed {
            Ok(f) => Corpus::evaluate_items(&mut self.symbols, source, &f.items, diagnostics),
            Err(e) => diagnostics.push(parse_error_diagnostic(source, &e)),
        }
    }

    /// Adds the symbols that the engine knows.
    pub fn add_engine_enums(&mut self)
        requires
            old(self).wf(),
        ensures
            final(self).wf(),
            final(self)@ == (CorpusView {
                symbols: corpus::with_engine_enums(old(self)@.symbols),
                ..old(self)@
            }),
    {
        inject_engine_enums(&mut self.symbols);
    }

    /// Adds a file of definitions. Gives back how many it has, where it parses.
    pub fn add_file(&mut self, path: String, text: String, diagnostics: &mut Diagnostics) -> (r:
        Option<usize>)
        requires
            old(self).wf(),
            old(self)@.sources.len() < u32::MAX,
        ensures
            final(self).wf(),
            (Loading { corpus: final(self)@, said: final(diagnostics)@ }) == with_file(
                Loading { corpus: old(self)@, said: old(diagnostics)@ },
                ReadView { path: path@, text: text@ },
            ),
            match grammar::source(text@, FileId(old(self)@.sources.len() as u32)) {
                Ok(f) => r == Some(ast::definitions_of(f.items).len() as usize),
                Err(_) => r is None,
            },
    {
        let source: usize = self.sources.len();
        let ghost start = self@;
        let parsed = parse_source(text.as_str(), FileId(source as u32));
        let named = path.clone();
        self.sources.push(SourceFile { path, text });
        match parsed {
            Ok(f) => {
                let n = self.add_places(source, &f.definitions(), Ghost(start.places));
                assert(self@.sources.len() == self.sources@.len());
                assert(self@.files.len() == self.files@.len());
                let ghost kept = *self;
                self.files.push(ParsedFile { path: named, def_file: f });
                self.file_sources.push(source);
                proof {
                    assert forall|i: int| 0 <= i < self.files@.len() implies ast::all_sound(
                        (#[trigger] self.files@[i]).def_file@.items,
                    ) by {
                        if i < kept.files@.len() {
                            assert(self.files@[i] == kept.files@[i]);
                        }
                    }
                }
                Some(n)
            },
            Err(e) => {
                diagnostics.push(parse_error_diagnostic(source, &e));
                None
            },
        }
    }

    /// Adds a file of definitions as it is read. What of it is no UTF-8 becomes U+FFFD. Gives
    /// back how many definitions it has, where it parses.
    pub fn add_raw_file(&mut self, path: String, raw: &[u8], diagnostics: &mut Diagnostics) -> (r:
        Option<usize>)
        requires
            old(self).wf(),
            old(self)@.sources.len() < u32::MAX,
        ensures
            final(self).wf(),
            (Loading { corpus: final(self)@, said: final(diagnostics)@ }) == with_file(
                Loading { corpus: old(self)@, said: old(diagnostics)@ },
                ReadView { path: path@, text: bytes::lossy_text(raw@) },
            ),
            match grammar::source(
                bytes::lossy_text(raw@),
                FileId(old(self)@.sources.len() as u32),
            ) {
                Ok(f) => r == Some(ast::definitions_of(f.items).len() as usize),
                Err(_) => r is None,
            },
    {
        self.add_file(path, decode_lossy(raw), diagnostics)
    }

    fn add_places(
        &mut self,
        source: usize,
        defs: &Vec<&Spanned<Definition>>,
        start: Ghost<Map<Seq<char>, DefPlace>>,
    ) -> (r: usize)
        requires
            old(self).wf(),
            start@ == old(self)@.places,
        ensures
            final(self).wf(),
            r == defs@.len(),
            final(self)@ == (CorpusView {
                places: places_upto(start@, source, base::views(defs@), defs@.len() as int),
                ..old(self)@
            }),
    {
        let ghost all = base::views(defs@);
        let mut k: usize = 0;
        while k < defs.len()
            invariant
                k <= defs@.len(),
                all == base::views(defs@),
                self.wf(),
                self@ == (CorpusView {
                    places: places_upto(start@, source, all, k as int),
                    ..old(self)@
                }),
            decreases defs@.len() - k,
        {
            assert(all[k as int] == defs@[k as int]@);
            self.places.insert(
                defs[k].value.name.as_str(),
                DefPlace { source, span: defs[k].span },
            );
            k = k + 1;
        }
        k
    }

    /// Evaluates the declarations of the files of definitions, in order.
    pub fn evaluate_files(&mut self, diagnostics: &mut Diagnostics)
        requires
            old(self).wf(),
        ensures
            final(self).wf(),
            (Loading { corpus: final(self)@, said: final(diagnostics)@ }) == evaluated_files(
                Loading { corpus: old(self)@, said: old(diagnostics)@ },
                old(self)@.files.len() as int,
            ),
    {
        let ghost start = Loading { corpus: self@, said: diagnostics@ };
        let n: usize = self.files.len();
        let mut k: usize = 0;
        while k < n
            invariant
                k <= n,
                n == self.files@.len(),
                n == start.corpus.files.len(),
                self.wf(),
                (Loading { corpus: self@, said: diagnostics@ }) == evaluated_files(
                    start,
                    k as int,
                ),
            decreases n - k,
        {
            proof {
                lemma_evaluated_files(start, k as int);
                assert(start.corpus.files[k as int] == self.files@[k as int]@);
            }
            let source = self.file_sources[k];
            Corpus::evaluate_items(
                &mut self.symbols,
                source,
                &self.files[k].def_file.items,
                diagnostics,
            );
            k = k + 1;
        }
    }
}

/// Says how many sources could not be loaded.
pub fn load_failure_message(count: usize) -> (r: String)
    ensures
        r@ == strings::nat_text(count as nat) + " source file"@ + (if count == 1 {
            ""@
        } else {
            "s"@
        }) + " failed to load"@,
{
    let mut m = String::new();
    push_nat(&mut m, count as u64);
    push_text(&mut m, " source file");
    push_text(
        &mut m,
        if count == 1 {
            ""
        } else {
            "s"
        },
    );
    push_text(&mut m, " failed to load");
    m
}

// ── Laws ─────────────────────────────────────────────────────────────────────

/// Whatever a file holds, it is kept as a source, and its diagnostics find it under
/// its number.
pub proof fn every_source_is_kept(l: Loading, file: ReadView)
    ensures
        with_header(l, file).corpus.sources == l.corpus.sources.push(file),
        with_file(l, file).corpus.sources == l.corpus.sources.push(file),
{
}

/// A file of definitions that does not parse adds no definition, and is said.
pub proof fn a_file_that_does_not_parse_is_an_error(l: Loading, file: ReadView)
    requires
        grammar::source(file.text, FileId(l.corpus.sources.len() as u32)) is Err,
    ensures
        with_file(l, file).corpus.files == l.corpus.files,
        with_file(l, file).corpus.places == l.corpus.places,
        with_file(l, file).said.len() == l.said.len() + 1,
        with_file(l, file).said.last().severity is Error,
        with_header(l, file).corpus.symbols == l.corpus.symbols,
        with_header(l, file).said.last().severity is Error,
{
}

} // verus!
