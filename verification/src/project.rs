//! The symbols of every document of a project, keyed by URI: the model a
//! name resolves to, the symbol at an offset with its definition and hover,
//! and the diagnostics that need other documents of the project.

use vstd::prelude::*;
use crate::diagnostic::Severity;
use crate::lookup::{
    contains_offset, contains_offset_spec, first_name_at, port_containing, port_named_spec,
    scoped_reference_at_spec, scoped_references_spec, InstanceScopedReference, InstanceScopedReferenceView,
};
use crate::completion::significant;
use crate::symbols::is_symbol_spec;
use crate::syntax::{lex_spec, TokenView};
use crate::source::TextRange;
use crate::symbols::{
    document_symbols_spec, lemma_views_push, views, DocumentSymbols, DocumentSymbolsView,
    InstanceBindingView, ModelReferenceView, PortDirection, PortSymbol, PortSymbolView,
};
use crate::text::{push_chars, push_range, str_eq, string_from_chars};

verus! {

// ---------------------------------------------------------------------------
// Files behind URIs
// ---------------------------------------------------------------------------

/// `Url::parse` followed by `Url::to_file_path`: the local path that a
/// URI names, as text, or `None` where the URI does not parse or names no
/// local path. A text without `:` is no absolute URL, and `Url::parse`
/// refuses it. Nothing more is stated of the path: how a URI maps to a path
/// follows the rules of the platform.
#[verifier::external_body]
fn uri_file_path(uri: &str) -> (r: Option<String>)
    ensures
        !uri@.contains(':') ==> r is None,
{
    tower_lsp::lsp_types::Url::parse(uri).ok().and_then(|url| url.to_file_path().ok()).map(
        |path| path.to_string_lossy().into_owned(),
    )
}

/// `Path::file_stem` of a path given as text: the file name without its
/// last extension. Nothing is stated of it: where a file name starts follows
/// the separators of the platform.
#[verifier::external_body]
fn path_file_stem(path: &str) -> (r: Option<String>) {
    std::path::Path::new(path).file_stem().map(|stem| stem.to_string_lossy().into_owned())
}

/// `Path::extension` of a path given as text: the part of the file name
/// after its last `.`, so that it holds no `.` itself. Where the file name
/// starts follows the separators of the platform, and is not stated.
#[verifier::external_body]
fn path_extension(path: &str) -> (r: Option<String>)
    ensures
        r matches Some(e) ==> !e@.contains('.'),
{
    std::path::Path::new(path).extension().map(|extension| extension.to_string_lossy().into_owned())
}

/// The stem and extension of the file a document's URI names.
#[derive(Debug, PartialEq, Eq)]
pub struct DocumentFile {
    pub stem: Option<String>,
    pub extension: Option<String>,
}

pub struct DocumentFileView {
    pub stem: Option<Seq<char>>,
    pub extension: Option<Seq<char>>,
}

pub open spec fn opt_string(o: Option<String>) -> Option<Seq<char>> {
    match o {
        Some(s) => Some(s@),
        None => None,
    }
}

impl View for DocumentFile {
    type V = DocumentFileView;

    open spec fn view(&self) -> DocumentFileView {
        DocumentFileView { stem: opt_string(self.stem), extension: opt_string(self.extension) }
    }
}

/// The file that a document's URI names: its stem is the model name. A
/// text that is no URI names no file, and an extension holds no `.`.
pub fn document_file(uri: &str) -> (r: DocumentFile)
    ensures
        !uri@.contains(':') ==> r@.stem is None && r@.extension is None,
        r@.extension matches Some(e) ==> !e.contains('.'),
{
    match uri_file_path(uri) {
        Some(path) => DocumentFile {
            stem: path_file_stem(path.as_str()),
            extension: path_extension(path.as_str()),
        },
        None => DocumentFile { stem: None, extension: None },
    }
}

/// The rank of a document among those of one model name, by the extension
/// of its file: models first, then interfaces, templates and posets.
pub open spec fn priority_spec(extension: Option<Seq<char>>) -> usize {
    match extension {
        Some(e) => if e == "mcdp"@ {
            0
        } else if e == "mcdp_interface"@ {
            1
        } else if e == "mcdp_template"@ {
            2
        } else if e == "mcdp_poset"@ {
            3
        } else {
            usize::MAX
        },
        None => usize::MAX,
    }
}

pub fn document_priority(extension: &Option<String>) -> (r: usize)
    ensures
        r == priority_spec(opt_string(*extension)),
{
    match extension {
        Some(e) => {
            let e = e.as_str();
            if str_eq(e, "mcdp") {
                0
            } else if str_eq(e, "mcdp_interface") {
                1
            } else if str_eq(e, "mcdp_template") {
                2
            } else if str_eq(e, "mcdp_poset") {
                3
            } else {
                usize::MAX
            }
        },
        None => usize::MAX,
    }
}

// ---------------------------------------------------------------------------
// The index
// ---------------------------------------------------------------------------

/// A document of the project with the file its URI names.
#[derive(Debug, PartialEq, Eq)]
pub struct IndexedDocument {
    pub file: DocumentFile,
    pub symbols: DocumentSymbols,
}

pub struct IndexedDocumentView {
    pub file: DocumentFileView,
    pub symbols: DocumentSymbolsView,
}

impl View for IndexedDocument {
    type V = IndexedDocumentView;

    open spec fn view(&self) -> IndexedDocumentView {
        IndexedDocumentView { file: self.file@, symbols: self.symbols@ }
    }
}

/// No two documents with one URI.
pub open spec fn distinct_uris(docs: Seq<IndexedDocumentView>) -> bool {
    forall|i: int, j: int|
        0 <= i < docs.len() && 0 <= j < docs.len() && i != j ==> #[trigger] docs[i].symbols.uri
            != #[trigger] docs[j].symbols.uri
}

/// The symbols of the documents of a project, one entry per URI.
pub struct ProjectSymbolIndex {
    documents: Vec<IndexedDocument>,
}

impl View for ProjectSymbolIndex {
    type V = Seq<IndexedDocumentView>;

    closed spec fn view(&self) -> Seq<IndexedDocumentView> {
        views(self.documents@)
    }
}

/// Index of the document with this URI.
pub open spec fn index_of_uri(docs: Seq<IndexedDocumentView>, uri: Seq<char>, i: int) -> Option<int>
    decreases docs.len() - i,
{
    if i < 0 || i >= docs.len() {
        None
    } else if docs[i].symbols.uri == uri {
        Some(i)
    } else {
        index_of_uri(docs, uri, i + 1)
    }
}

/// The symbols of the document with this URI.
pub open spec fn document_spec(docs: Seq<IndexedDocumentView>, uri: Seq<char>) -> Option<DocumentSymbolsView> {
    match index_of_uri(docs, uri, 0) {
        Some(i) => Some(docs[i].symbols),
        None => None,
    }
}

pub proof fn lemma_index_of_uri(docs: Seq<IndexedDocumentView>, uri: Seq<char>, i: int)
    requires
        0 <= i,
    ensures
        index_of_uri(docs, uri, i) matches Some(k) ==> i <= k < docs.len() && docs[k].symbols.uri == uri,
        index_of_uri(docs, uri, i) is None ==> forall|k: int| i <= k < docs.len() ==> docs[k].symbols.uri != uri,
    decreases docs.len() - i,
{
    if i < docs.len() && docs[i].symbols.uri != uri {
        lemma_index_of_uri(docs, uri, i + 1);
    }
}

pub proof fn lemma_index_of_uri_unique(docs: Seq<IndexedDocumentView>, uri: Seq<char>, k: int)
    requires
        distinct_uris(docs),
        0 <= k < docs.len(),
        docs[k].symbols.uri == uri,
    ensures
        index_of_uri(docs, uri, 0) == Some(k),
{
    lemma_index_of_uri(docs, uri, 0);
    match index_of_uri(docs, uri, 0) {
        Some(j) => {
            if j != k {
                assert(docs[j].symbols.uri != docs[k].symbols.uri);
            }
        },
        None => {},
    }
}

impl ProjectSymbolIndex {
    #[verifier::type_invariant]
    closed spec fn inv(self) -> bool {
        distinct_uris(views(self.documents@))
    }

    /// An index with no document.
    pub fn new() -> (r: ProjectSymbolIndex)
        ensures
            r@ == Seq::<IndexedDocumentView>::empty(),
    {
        let r = ProjectSymbolIndex { documents: Vec::new() };
        assert(r@ =~= Seq::<IndexedDocumentView>::empty());
        r
    }

    /// The number of documents.
    pub fn len(&self) -> (r: usize)
        ensures
            r == self@.len(),
    {
        self.documents.len()
    }

    /// The document at a position of the index.
    pub fn entry(&self, i: usize) -> (r: &IndexedDocument)
        requires
            i < self@.len(),
        ensures
            r@ == self@[i as int],
    {
        &self.documents[i]
    }

    fn position_of(&self, uri: &str) -> (r: Option<usize>)
        ensures
            match r {
                Some(i) => i < self@.len() && index_of_uri(self@, uri@, 0) == Some(i as int),
                None => index_of_uri(self@, uri@, 0) is None,
            },
    {
        let ghost dv = self@;
        let mut i: usize = 0;
        while i < self.documents.len()
            invariant
                i <= self.documents@.len(),
                dv == views(self.documents@),
                index_of_uri(dv, uri@, 0) == index_of_uri(dv, uri@, i as int),
            decreases self.documents@.len() - i,
        {
            assert(dv[i as int] == self.documents@[i as int]@);
            if str_eq(self.documents[i].symbols.uri.as_str(), uri) {
                return Some(i);
            }
            i = i + 1;
        }
        None
    }

    /// The symbols of the document with this URI.
    pub fn document(&self, uri: &str) -> (r: Option<&DocumentSymbols>)
        ensures
            match r {
                Some(d) => document_spec(self@, uri@) == Some(d@),
                None => document_spec(self@, uri@) is None,
            },
    {
        match self.position_of(uri) {
            Some(i) => {
                assert(self@[i as int] == self.documents@[i as int]@);
                Some(&self.documents[i].symbols)
            },
            None => None,
        }
    }

    /// Reads a document and puts its symbols under its URI, in place of
    /// those it had.
    pub fn upsert(&mut self, uri: &str, source: &str)
        ensures
            document_spec(final(self)@, uri@) == Some(document_symbols_spec(uri@, source@)),
            forall|other: Seq<char>|
                other != uri@ ==> #[trigger] document_spec(final(self)@, other) == document_spec(old(self)@, other),
            match index_of_uri(old(self)@, uri@, 0) {
                Some(i) => final(self)@.len() == old(self)@.len() && final(self)@[i].symbols == document_symbols_spec(
                    uri@,
                    source@,
                ) && forall|j: int| 0 <= j < old(self)@.len() && j != i ==> #[trigger] final(self)@[j] == old(self)@[j],
                None => final(self)@.len() == old(self)@.len() + 1 && final(self)@.last().symbols
                    == document_symbols_spec(uri@, source@) && forall|j: int|
                    0 <= j < old(self)@.len() ==> #[trigger] final(self)@[j] == old(self)@[j],
            },
    {
        proof {
            use_type_invariant(&*self);
        }
        let symbols = DocumentSymbols::parse(uri, source);
        let entry = IndexedDocument { file: document_file(uri), symbols };
        let ghost old_docs = self@;
        let ghost new_symbols = document_symbols_spec(uri@, source@);
        proof {
            lemma_index_of_uri(old_docs, uri@, 0);
            crate::symbols::lemma_document_symbols_keep(uri@, source@);
            assert(entry@.symbols.uri == uri@);
        }
        match self.position_of(uri) {
            Some(i) => {
                let ghost expected = old_docs.update(i as int, entry@);
                let mut documents = Vec::new();
                std::mem::swap(&mut documents, &mut self.documents);
                proof {
                    assert(views(documents@) == old_docs);
                }
                documents.set(i, entry);
                assert(views(documents@) =~= expected);
                assert(distinct_uris(expected)) by {
                    assert forall|a: int, b: int|
                        0 <= a < expected.len() && 0 <= b < expected.len() && a != b implies #[trigger] expected[a].symbols.uri
                            != #[trigger] expected[b].symbols.uri by {
                        assert(old_docs[a].symbols.uri != old_docs[b].symbols.uri);
                    }
                }
                self.documents = documents;
                proof {
                    assert(self@ == expected);
                    lemma_index_of_uri_unique(expected, uri@, i as int);
                    assert forall|other: Seq<char>| other != uri@ implies #[trigger] document_spec(self@, other)
                        == document_spec(old_docs, other) by {
                        lemma_same_other_uri(old_docs, expected, uri@, other, 0);
                    }
                }
            },
            None => {
                let ghost expected = old_docs.push(entry@);
                let mut documents = Vec::new();
                std::mem::swap(&mut documents, &mut self.documents);
                proof {
                    assert(views(documents@) == old_docs);
                    lemma_views_push(documents@, entry);
                }
                documents.push(entry);
                assert(views(documents@) == expected);
                assert(distinct_uris(expected)) by {
                    assert forall|a: int, b: int|
                        0 <= a < expected.len() && 0 <= b < expected.len() && a != b implies #[trigger] expected[a].symbols.uri
                            != #[trigger] expected[b].symbols.uri by {
                        if a < old_docs.len() && b < old_docs.len() {
                            assert(old_docs[a].symbols.uri != old_docs[b].symbols.uri);
                        } else if a < old_docs.len() {
                            assert(old_docs[a].symbols.uri != uri@);
                        } else {
                            assert(old_docs[b].symbols.uri != uri@);
                        }
                    }
                }
                self.documents = documents;
                proof {
                    assert(self@ == expected);
                    lemma_index_of_uri_unique(expected, uri@, old_docs.len() as int);
                    assert forall|other: Seq<char>| other != uri@ implies #[trigger] document_spec(self@, other)
                        == document_spec(old_docs, other) by {
                        lemma_push_other_uri(old_docs, entry@, other, 0);
                        lemma_index_of_uri(old_docs, other, 0);
                    }
                }
            },
        }
    }
}

/// The last text given for a URI among the first `k` pairs.
pub open spec fn last_source(sources: Seq<(Seq<char>, Seq<char>)>, uri: Seq<char>, k: int) -> Option<Seq<char>>
    decreases k,
{
    if k <= 0 {
        None
    } else if sources[k - 1].0 == uri {
        Some(sources[k - 1].1)
    } else {
        last_source(sources, uri, k - 1)
    }
}

pub open spec fn pairs_of(v: Seq<(String, String)>) -> Seq<(Seq<char>, Seq<char>)> {
    v.map_values(|p: (String, String)| (p.0@, p.1@))
}

impl ProjectSymbolIndex {
    /// The index of a project's documents read in order; a later text of a
    /// URI takes the place of an earlier one (open documents come after the
    /// files on disk).
    pub fn from_sources(sources: &Vec<(String, String)>) -> (r: ProjectSymbolIndex)
        ensures
            forall|uri: Seq<char>|
                #[trigger] document_spec(r@, uri) == match last_source(pairs_of(sources@), uri, sources@.len() as int) {
                    Some(text) => Some(document_symbols_spec(uri, text)),
                    None => None,
                },
    {
        let ghost pv = pairs_of(sources@);
        let mut index = ProjectSymbolIndex::new();
        let mut i: usize = 0;
        while i < sources.len()
            invariant
                i <= sources@.len(),
                pv == pairs_of(sources@),
                forall|uri: Seq<char>|
                    #[trigger] document_spec(index@, uri) == match last_source(pv, uri, i as int) {
                        Some(text) => Some(document_symbols_spec(uri, text)),
                        None => None,
                    },
            decreases sources@.len() - i,
        {
            assert(pv[i as int] == (sources@[i as int].0@, sources@[i as int].1@));
            index.upsert(sources[i].0.as_str(), sources[i].1.as_str());
            i = i + 1;
        }
        index
    }
}

proof fn lemma_same_other_uri(
    a: Seq<IndexedDocumentView>,
    b: Seq<IndexedDocumentView>,
    uri: Seq<char>,
    other: Seq<char>,
    i: int,
)
    requires
        a.len() == b.len(),
        0 <= i,
        other != uri,
        forall|k: int| 0 <= k < a.len() ==> (#[trigger] a[k] == b[k] || b[k].symbols.uri == uri),
        forall|k: int| 0 <= k < a.len() && b[k].symbols.uri == uri ==> #[trigger] a[k].symbols.uri == uri,
    ensures
        index_of_uri(a, other, i) == index_of_uri(b, other, i),
        index_of_uri(a, other, i) matches Some(k) ==> a[k] == b[k],
    decreases a.len() - i,
{
    if i < a.len() {
        assert(a[i] == b[i] || b[i].symbols.uri == uri);
        lemma_same_other_uri(a, b, uri, other, i + 1);
    }
}

proof fn lemma_push_other_uri(a: Seq<IndexedDocumentView>, x: IndexedDocumentView, other: Seq<char>, i: int)
    requires
        0 <= i,
        x.symbols.uri != other,
    ensures
        index_of_uri(a, other, i) == index_of_uri(a.push(x), other, i),
    decreases a.len() + 1 - i,
{
    if i < a.len() {
        assert(a.push(x)[i] == a[i]);
        lemma_push_other_uri(a, x, other, i + 1);
    } else if i == a.len() {
        assert(a.push(x)[i] == x);
        assert(index_of_uri(a.push(x), other, i + 1) is None);
    }
}

// ---------------------------------------------------------------------------
// Texts
// ---------------------------------------------------------------------------

fn text3(a: &str, b: &str, c: &str) -> (r: String)
    ensures
        r@ == a@ + b@ + c@,
{
    let mut out: Vec<char> = Vec::new();
    push_chars(&mut out, a);
    assert(out@ =~= a@);
    push_chars(&mut out, b);
    push_chars(&mut out, c);
    string_from_chars(out.as_slice())
}

fn text5(a: &str, b: &str, c: &str, d: &str, e: &str) -> (r: String)
    ensures
        r@ == a@ + b@ + c@ + d@ + e@,
{
    let mut out: Vec<char> = Vec::new();
    push_chars(&mut out, a);
    assert(out@ =~= a@);
    push_chars(&mut out, b);
    push_chars(&mut out, c);
    push_chars(&mut out, d);
    push_chars(&mut out, e);
    string_from_chars(out.as_slice())
}

fn text6(a: &str, b: &str, c: &str, d: &str, e: &str, f: &str) -> (r: String)
    ensures
        r@ == a@ + b@ + c@ + d@ + e@ + f@,
{
    let mut out: Vec<char> = Vec::new();
    push_chars(&mut out, a);
    assert(out@ =~= a@);
    push_chars(&mut out, b);
    push_chars(&mut out, c);
    push_chars(&mut out, d);
    push_chars(&mut out, e);
    push_chars(&mut out, f);
    string_from_chars(out.as_slice())
}

fn text7(a: &str, b: &str, c: &str, d: &str, e: &str, f: &str, g: &str) -> (r: String)
    ensures
        r@ == a@ + b@ + c@ + d@ + e@ + f@ + g@,
{
    let mut out: Vec<char> = Vec::new();
    push_chars(&mut out, a);
    assert(out@ =~= a@);
    push_chars(&mut out, b);
    push_chars(&mut out, c);
    push_chars(&mut out, d);
    push_chars(&mut out, e);
    push_chars(&mut out, f);
    push_chars(&mut out, g);
    string_from_chars(out.as_slice())
}

pub open spec fn hover_label_of(d: PortDirection) -> Seq<char> {
    match d {
        PortDirection::Provided => "Provided"@,
        PortDirection::Required => "Required"@,
    }
}

pub open spec fn role_of(d: PortDirection) -> Seq<char> {
    match d {
        PortDirection::Provided => "functionality/output that the model can provide"@,
        PortDirection::Required => "resource/input that the model needs"@,
    }
}

pub open spec fn diagnostic_label_of(d: PortDirection) -> Seq<char> {
    match d {
        PortDirection::Provided => "provided"@,
        PortDirection::Required => "required"@,
    }
}

pub open spec fn keyword_of(d: PortDirection) -> Seq<char> {
    match d {
        PortDirection::Provided => "`provides`"@,
        PortDirection::Required => "`requires`"@,
    }
}

// ---------------------------------------------------------------------------
// Resolving names
// ---------------------------------------------------------------------------

/// The document of a model name among the first `k`: of those whose file
/// has that stem, the first with the least priority.
pub open spec fn model_document_upto(docs: Seq<IndexedDocumentView>, name: Seq<char>, k: int) -> Option<int>
    decreases k,
{
    if k <= 0 {
        None
    } else {
        let p = model_document_upto(docs, name, k - 1);
        if docs[k - 1].file.stem == Some(name) {
            match p {
                None => Some(k - 1),
                Some(b) => if priority_spec(docs[k - 1].file.extension) < priority_spec(docs[b].file.extension) {
                    Some(k - 1)
                } else {
                    Some(b)
                },
            }
        } else {
            p
        }
    }
}

/// The document a model name resolves to.
pub open spec fn model_document_spec(docs: Seq<IndexedDocumentView>, name: Seq<char>) -> Option<int> {
    model_document_upto(docs, name, docs.len() as int)
}

pub proof fn lemma_model_document_upto(docs: Seq<IndexedDocumentView>, name: Seq<char>, k: int)
    requires
        0 <= k <= docs.len(),
    ensures
        model_document_upto(docs, name, k) matches Some(b) ==> 0 <= b < k && docs[b].file.stem == Some(name),
        model_document_upto(docs, name, k) is None ==> forall|j: int| 0 <= j < k ==> docs[j].file.stem != Some(name),
        model_document_upto(docs, name, k) matches Some(b) ==> forall|j: int|
            0 <= j < k && docs[j].file.stem == Some(name) ==> priority_spec(docs[b].file.extension) <= priority_spec(
                docs[j].file.extension,
            ),
    decreases k,
{
    if k > 0 {
        lemma_model_document_upto(docs, name, k - 1);
    }
}

/// The first document of a poset name: a `.mcdp_poset` file with that stem.
pub open spec fn poset_document_from(docs: Seq<IndexedDocumentView>, name: Seq<char>, i: int) -> Option<int>
    decreases docs.len() - i,
{
    if i < 0 || i >= docs.len() {
        None
    } else if docs[i].file.stem == Some(name) && docs[i].file.extension == Some("mcdp_poset"@) {
        Some(i)
    } else {
        poset_document_from(docs, name, i + 1)
    }
}

/// First instance at or after `i` with this name.
pub open spec fn instance_with_name(insts: Seq<InstanceBindingView>, name: Seq<char>, i: int) -> Option<int>
    decreases insts.len() - i,
{
    if i < 0 || i >= insts.len() {
        None
    } else if insts[i].name == name {
        Some(i)
    } else {
        instance_with_name(insts, name, i + 1)
    }
}

/// The document and port that a reference scoped by an instance names: the
/// instance's model resolved in the project, and its port of that side and
/// name.
pub open spec fn resolve_spec(
    docs: Seq<IndexedDocumentView>,
    d: DocumentSymbolsView,
    rf: InstanceScopedReferenceView,
) -> Option<(int, PortSymbolView)> {
    match instance_with_name(d.instances, rf.instance_name, 0) {
        None => None,
        Some(i) => match d.instances[i].model {
            None => None,
            Some(m) => match model_document_spec(docs, m.name) {
                None => None,
                Some(t) => match port_named_spec(docs[t].symbols, rf.direction, rf.port_name) {
                    None => None,
                    Some(p) => Some((t, p)),
                },
            },
        },
    }
}

fn instance_named<'a>(d: &'a DocumentSymbols, name: &str) -> (r: Option<&'a crate::symbols::InstanceBinding>)
    ensures
        match r {
            Some(b) => instance_with_name(d@.instances, name@, 0) matches Some(i) && d@.instances[i] == b@,
            None => instance_with_name(d@.instances, name@, 0) is None,
        },
{
    let ghost iv = d@.instances;
    let mut i: usize = 0;
    while i < d.instances.len()
        invariant
            i <= d.instances@.len(),
            iv == views(d.instances@),
            iv == d@.instances,
            instance_with_name(iv, name@, 0) == instance_with_name(iv, name@, i as int),
        decreases d.instances@.len() - i,
    {
        assert(iv[i as int] == d.instances@[i as int]@);
        if str_eq(d.instances[i].name.as_str(), name) {
            return Some(&d.instances[i]);
        }
        i = i + 1;
    }
    None
}

impl ProjectSymbolIndex {
    /// The document a model name resolves to: of the documents whose file
    /// has that stem, the first of least priority.
    pub fn model_document(&self, name: &str) -> (r: Option<usize>)
        ensures
            match r {
                Some(i) => i < self@.len() && model_document_spec(self@, name@) == Some(i as int),
                None => model_document_spec(self@, name@) is None,
            },
    {
        let ghost dv = self@;
        let mut best: Option<usize> = None;
        let mut best_priority: usize = usize::MAX;
        let mut i: usize = 0;
        while i < self.documents.len()
            invariant
                i <= self.documents@.len(),
                dv == views(self.documents@),
                model_document_upto(dv, name@, i as int) == match best {
                    Some(b) => Some(b as int),
                    None => None,
                },
                best matches Some(b) ==> b < i && best_priority == priority_spec(dv[b as int].file.extension),
            decreases self.documents@.len() - i,
        {
            let entry = &self.documents[i];
            assert(dv[i as int] == entry@);
            let is_model = match &entry.file.stem {
                Some(stem) => str_eq(stem.as_str(), name),
                None => false,
            };
            if is_model {
                let priority = document_priority(&entry.file.extension);
                match best {
                    None => {
                        best = Some(i);
                        best_priority = priority;
                    },
                    Some(_) => {
                        if priority < best_priority {
                            best = Some(i);
                            best_priority = priority;
                        }
                    },
                }
            }
            i = i + 1;
        }
        best
    }

    /// The first `.mcdp_poset` document with this stem.
    pub fn poset_document(&self, name: &str) -> (r: Option<usize>)
        ensures
            match r {
                Some(i) => i < self@.len() && poset_document_from(self@, name@, 0) == Some(i as int),
                None => poset_document_from(self@, name@, 0) is None,
            },
    {
        let ghost dv = self@;
        let mut i: usize = 0;
        while i < self.documents.len()
            invariant
                i <= self.documents@.len(),
                dv == views(self.documents@),
                poset_document_from(dv, name@, 0) == poset_document_from(dv, name@, i as int),
            decreases self.documents@.len() - i,
        {
            let entry = &self.documents[i];
            assert(dv[i as int] == entry@);
            let stem_matches = match &entry.file.stem {
                Some(stem) => str_eq(stem.as_str(), name),
                None => false,
            };
            let is_poset = match &entry.file.extension {
                Some(e) => str_eq(e.as_str(), "mcdp_poset"),
                None => false,
            };
            if stem_matches && is_poset {
                return Some(i);
            }
            i = i + 1;
        }
        None
    }

    /// The document and port that a reference scoped by an instance names.
    pub fn resolve_instance_scoped_reference(
        &self,
        document: &DocumentSymbols,
        reference: &InstanceScopedReference,
    ) -> (r: Option<(usize, &PortSymbol)>)
        ensures
            match r {
                Some((t, p)) => t < self@.len() && resolve_spec(self@, document@, reference@) == Some(
                    (t as int, p@),
                ),
                None => resolve_spec(self@, document@, reference@) is None,
            },
    {
        let instance = match instance_named(document, reference.instance_name.as_str()) {
            Some(b) => b,
            None => return None,
        };
        let model = match &instance.model {
            Some(m) => m,
            None => return None,
        };
        let t = match self.model_document(model.name.as_str()) {
            Some(t) => t,
            None => return None,
        };
        assert(self@[t as int] == self.documents@[t as int]@);
        match self.documents[t].symbols.port_named(reference.direction, reference.port_name.as_str()) {
            Some(p) => Some((t, p)),
            None => None,
        }
    }
}

// ---------------------------------------------------------------------------
// The symbol at an offset
// ---------------------------------------------------------------------------

/// What a symbol stands for: a model document, or a declared port.
#[derive(Debug, PartialEq, Eq)]
pub enum SymbolTarget {
    Model { uri: String },
    Port { uri: String, range: TextRange, direction: PortDirection, name: String },
}

pub enum SymbolTargetView {
    Model { uri: Seq<char> },
    Port { uri: Seq<char>, range: TextRange, direction: PortDirection, name: Seq<char> },
}

impl View for SymbolTarget {
    type V = SymbolTargetView;

    open spec fn view(&self) -> SymbolTargetView {
        match self {
            SymbolTarget::Model { uri } => SymbolTargetView::Model { uri: uri@ },
            SymbolTarget::Port { uri, range, direction, name } => SymbolTargetView::Port {
                uri: uri@,
                range: *range,
                direction: *direction,
                name: name@,
            },
        }
    }
}

/// How a symbol occurs: as plain text, read, or written (declared).
#[derive(Clone, Copy, Debug, PartialEq, Eq, Structural)]
pub enum OccurrenceKind {
    Text,
    Read,
    Write,
}

/// Where a symbol occurs.
#[derive(Debug, PartialEq, Eq)]
pub struct SymbolOccurrence {
    pub uri: String,
    pub range: TextRange,
    pub kind: OccurrenceKind,
}

pub struct SymbolOccurrenceView {
    pub uri: Seq<char>,
    pub range: TextRange,
    pub kind: OccurrenceKind,
}

impl View for SymbolOccurrence {
    type V = SymbolOccurrenceView;

    open spec fn view(&self) -> SymbolOccurrenceView {
        SymbolOccurrenceView { uri: self.uri@, range: self.range, kind: self.kind }
    }
}

/// What the text at the offset is.
#[derive(Debug, PartialEq, Eq)]
pub enum SymbolContext {
    ModelReference { name: String },
    InstanceScopedVariable { port_name: String, instance_name: String, model_name: String, direction: PortDirection },
    PortDeclaration { name: String, direction: PortDirection },
}

pub enum SymbolContextView {
    ModelReference { name: Seq<char> },
    InstanceScopedVariable {
        port_name: Seq<char>,
        instance_name: Seq<char>,
        model_name: Seq<char>,
        direction: PortDirection,
    },
    PortDeclaration { name: Seq<char>, direction: PortDirection },
}

impl View for SymbolContext {
    type V = SymbolContextView;

    open spec fn view(&self) -> SymbolContextView {
        match self {
            SymbolContext::ModelReference { name } => SymbolContextView::ModelReference { name: name@ },
            SymbolContext::InstanceScopedVariable { port_name, instance_name, model_name, direction } => {
                SymbolContextView::InstanceScopedVariable {
                    port_name: port_name@,
                    instance_name: instance_name@,
                    model_name: model_name@,
                    direction: *direction,
                }
            },
            SymbolContext::PortDeclaration { name, direction } => SymbolContextView::PortDeclaration {
                name: name@,
                direction: *direction,
            },
        }
    }
}

/// A symbol found at an offset: what it stands for, where it occurs, and
/// what the text there is.
#[derive(Debug, PartialEq, Eq)]
pub struct ResolvedSymbol {
    pub target: SymbolTarget,
    pub occurrence: SymbolOccurrence,
    pub context: SymbolContext,
}

pub struct ResolvedSymbolView {
    pub target: SymbolTargetView,
    pub occurrence: SymbolOccurrenceView,
    pub context: SymbolContextView,
}

impl View for ResolvedSymbol {
    type V = ResolvedSymbolView;

    open spec fn view(&self) -> ResolvedSymbolView {
        ResolvedSymbolView { target: self.target@, occurrence: self.occurrence@, context: self.context@ }
    }
}

pub open spec fn opt_resolved(o: Option<ResolvedSymbol>) -> Option<ResolvedSymbolView> {
    match o {
        Some(x) => Some(x@),
        None => None,
    }
}

/// First model reference at or after `i` whose whole reference holds the offset.
pub open spec fn reference_containing(refs: Seq<ModelReferenceView>, offset: int, i: int) -> Option<int>
    decreases refs.len() - i,
{
    if i < 0 || i >= refs.len() {
        None
    } else if contains_offset_spec(refs[i].reference_range, offset) {
        Some(i)
    } else {
        reference_containing(refs, offset, i + 1)
    }
}

/// The name of a model document: its file's stem, else its URI.
pub open spec fn model_name_of(doc: IndexedDocumentView) -> Seq<char> {
    match doc.file.stem {
        Some(s) => s,
        None => doc.symbols.uri,
    }
}

/// The symbol at an offset of a document: a model reference there resolved
/// in the project; else a reference scoped by an instance resolved to the
/// instance model's port; else a port declared there.
pub open spec fn symbol_at_spec(docs: Seq<IndexedDocumentView>, uri: Seq<char>, offset: int) -> Option<
    ResolvedSymbolView,
> {
    match document_spec(docs, uri) {
        None => None,
        Some(d) => match reference_containing(d.model_references, offset, 0) {
            Some(j) => {
                let reference = d.model_references[j];
                match model_document_spec(docs, reference.name) {
                    None => None,
                    Some(t) => Some(
                        ResolvedSymbolView {
                            target: SymbolTargetView::Model { uri: docs[t].symbols.uri },
                            occurrence: SymbolOccurrenceView { uri, range: reference.name_range, kind: OccurrenceKind::Text },
                            context: SymbolContextView::ModelReference { name: reference.name },
                        },
                    ),
                }
            },
            None => match scoped_reference_at_spec(d.source, offset) {
                Some(rf) => match resolve_spec(docs, d, rf) {
                    None => None,
                    Some((t, port)) => Some(
                        ResolvedSymbolView {
                            target: SymbolTargetView::Port {
                                uri: docs[t].symbols.uri,
                                range: port.name_range,
                                direction: rf.direction,
                                name: port.name,
                            },
                            occurrence: SymbolOccurrenceView { uri, range: rf.port_range, kind: OccurrenceKind::Read },
                            context: SymbolContextView::InstanceScopedVariable {
                                port_name: rf.port_name,
                                instance_name: rf.instance_name,
                                model_name: model_name_of(docs[t]),
                                direction: rf.direction,
                            },
                        },
                    ),
                },
                None => match crate::lookup::port_at_spec(d, offset) {
                    Some((port, direction)) => Some(
                        ResolvedSymbolView {
                            target: SymbolTargetView::Port {
                                uri: d.uri,
                                range: port.name_range,
                                direction,
                                name: port.name,
                            },
                            occurrence: SymbolOccurrenceView { uri, range: port.name_range, kind: OccurrenceKind::Write },
                            context: SymbolContextView::PortDeclaration { name: port.name, direction },
                        },
                    ),
                    None => None,
                },
            },
        },
    }
}

proof fn lemma_reference_containing(refs: Seq<ModelReferenceView>, offset: int, i: int)
    requires
        0 <= i,
    ensures
        match reference_containing(refs, offset, i) {
            Some(j) => i <= j < refs.len() && contains_offset_spec(refs[j].reference_range, offset),
            None => forall|k: int|
                i <= k < refs.len() ==> !contains_offset_spec(#[trigger] refs[k].reference_range, offset),
        },
    decreases refs.len() - i,
{
    if i < refs.len() && !contains_offset_spec(refs[i].reference_range, offset) {
        lemma_reference_containing(refs, offset, i + 1);
    }
}

proof fn lemma_first_name_at(sig: Seq<TokenView>, offset: int, i: int)
    requires
        0 <= i,
    ensures
        first_name_at(sig, offset, i) matches Some(j) ==> i <= j < sig.len() && contains_offset_spec(
            sig[j].range,
            offset,
        ),
    decreases sig.len() - i,
{
    if i < sig.len() && !(is_symbol_spec(sig[i]) && contains_offset_spec(sig[i].range, offset)) {
        lemma_first_name_at(sig, offset, i + 1);
    }
}

proof fn lemma_port_containing(ports: Seq<PortSymbolView>, offset: int, i: int)
    requires
        0 <= i,
    ensures
        port_containing(ports, offset, i) matches Some(j) ==> i <= j < ports.len() && contains_offset_spec(
            ports[j].name_range,
            offset,
        ),
    decreases ports.len() - i,
{
    if i < ports.len() && !contains_offset_spec(ports[i].name_range, offset) {
        lemma_port_containing(ports, offset, i + 1);
    }
}

/// The symbol at an offset is one of three, tried in this order: a model
/// reference whose text holds the offset, resolved to the model's document
/// and read as text at the model name; else a port named through an
/// instance whose name holds the offset, resolved to that port of the
/// instance's model and read there; else a port declared in the document
/// whose name holds the offset, written there. A document the index lacks
/// has no symbols.
pub proof fn symbol_at_is_one_of_three(docs: Seq<IndexedDocumentView>, uri: Seq<char>, offset: int)
    ensures
        document_spec(docs, uri) is None ==> symbol_at_spec(docs, uri, offset) is None,
        symbol_at_spec(docs, uri, offset) matches Some(s) ==> ({
            let d = document_spec(docs, uri).unwrap();
            let no_reference = forall|k: int|
                0 <= k < d.model_references.len() ==> !contains_offset_spec(
                    #[trigger] d.model_references[k].reference_range,
                    offset,
                );
            &&& document_spec(docs, uri) is Some
            &&& s.occurrence.uri == uri
            &&& s.occurrence.kind == OccurrenceKind::Text ==> exists|j: int|
                0 <= j < d.model_references.len() && contains_offset_spec(
                    #[trigger] d.model_references[j].reference_range,
                    offset,
                ) && s.occurrence.range == d.model_references[j].name_range && (model_document_spec(
                    docs,
                    d.model_references[j].name,
                ) matches Some(t) && s.target == SymbolTargetView::Model { uri: docs[t].symbols.uri })
            &&& s.occurrence.kind == OccurrenceKind::Read ==> no_reference && contains_offset_spec(
                s.occurrence.range,
                offset,
            ) && (scoped_reference_at_spec(d.source, offset) matches Some(rf) && s.occurrence.range
                == rf.port_range && (s.target matches SymbolTargetView::Port { direction, .. }
                && direction == rf.direction))
            &&& s.occurrence.kind == OccurrenceKind::Write ==> no_reference && scoped_reference_at_spec(
                d.source,
                offset,
            ) is None && contains_offset_spec(s.occurrence.range, offset) && (s.target matches SymbolTargetView::Port {
                uri: target_uri,
                range,
                ..
            } && target_uri == d.uri && range == s.occurrence.range)
        }),
{
    match document_spec(docs, uri) {
        None => {},
        Some(d) => {
            lemma_reference_containing(d.model_references, offset, 0);
            lemma_first_name_at(significant(lex_spec(d.source)), offset, 0);
            lemma_port_containing(d.provides, offset, 0);
            lemma_port_containing(d.requires, offset, 0);
            match reference_containing(d.model_references, offset, 0) {
                Some(j) => {
                    assert(contains_offset_spec(d.model_references[j].reference_range, offset));
                },
                None => {},
            }
        },
    }
}

/// Where a symbol is defined.
#[derive(Debug, PartialEq, Eq)]
pub struct DefinitionTarget {
    pub uri: String,
    pub range: TextRange,
}

pub struct DefinitionTargetView {
    pub uri: Seq<char>,
    pub range: TextRange,
}

impl View for DefinitionTarget {
    type V = DefinitionTargetView;

    open spec fn view(&self) -> DefinitionTargetView {
        DefinitionTargetView { uri: self.uri@, range: self.range }
    }
}

pub open spec fn opt_definition(o: Option<DefinitionTarget>) -> Option<DefinitionTargetView> {
    match o {
        Some(x) => Some(x@),
        None => None,
    }
}

/// Where a target is defined: a model at its document's first token, a port
/// at its name.
pub open spec fn definition_spec(docs: Seq<IndexedDocumentView>, target: SymbolTargetView) -> Option<DefinitionTargetView> {
    match target {
        SymbolTargetView::Model { uri } => match document_spec(docs, uri) {
            Some(d) => Some(DefinitionTargetView { uri: d.uri, range: d.definition_range }),
            None => None,
        },
        SymbolTargetView::Port { uri, range, .. } => Some(DefinitionTargetView { uri, range }),
    }
}

/// The hover text of a resolved symbol.
pub open spec fn hover_contents_spec(docs: Seq<IndexedDocumentView>, symbol: ResolvedSymbolView) -> Seq<char> {
    match symbol.context {
        SymbolContextView::ModelReference { name } => match definition_spec(docs, symbol.target) {
            Some(definition) => {
                let target = match index_of_uri(docs, definition.uri, 0) {
                    Some(k) => model_name_of(docs[k]),
                    None => definition.uri,
                };
                "**Model reference** `"@ + name + "`\n\nResolves to the `"@ + target + "` MCDPL document."@
            },
            None => "**Model reference** `"@ + name + "`"@,
        },
        SymbolContextView::InstanceScopedVariable { port_name, instance_name, model_name, direction } => "**"@
            + hover_label_of(direction) + " variable** `"@ + port_name + "`\n\nResolved through instance `"@
            + instance_name + "` to `"@ + model_name + "`."@,
        SymbolContextView::PortDeclaration { name, direction } => "**"@ + hover_label_of(direction)
            + " declaration** `"@ + name + "`\n\nDeclares a "@ + role_of(direction) + " on this model."@,
    }
}

impl ProjectSymbolIndex {
    /// The document at a position of the index.
    fn stem_or_uri(&self, t: usize) -> (r: String)
        requires
            t < self@.len(),
        ensures
            r@ == model_name_of(self@[t as int]),
    {
        assert(self@[t as int] == self.documents@[t as int]@);
        match &self.documents[t].file.stem {
            Some(stem) => stem.clone(),
            None => self.documents[t].symbols.uri.clone(),
        }
    }

    /// The symbol at an offset of a document.
    pub fn symbol_at(&self, uri: &str, offset: usize) -> (r: Option<ResolvedSymbol>)
        ensures
            opt_resolved(r) == symbol_at_spec(self@, uri@, offset as int),
    {
        let document = match self.document(uri) {
            Some(d) => d,
            None => return None,
        };
        let ghost rv = document@.model_references;
        let mut j: usize = 0;
        while j < document.model_references.len()
            invariant
                j <= document.model_references@.len(),
                rv == views(document.model_references@),
                rv == document@.model_references,
                reference_containing(rv, offset as int, 0) == reference_containing(rv, offset as int, j as int),
            ensures
                j <= document.model_references@.len(),
                rv == document@.model_references,
                reference_containing(rv, offset as int, 0) == reference_containing(rv, offset as int, j as int),
                j < document.model_references@.len() ==> contains_offset_spec(rv[j as int].reference_range, offset as int),
            decreases document.model_references@.len() - j,
        {
            assert(rv[j as int] == document.model_references@[j as int]@);
            if contains_offset(document.model_references[j].reference_range, offset) {
                break;
            }
            j = j + 1;
        }
        if j < document.model_references.len() {
            let reference = &document.model_references[j];
            assert(rv[j as int] == reference@);
            assert(reference_containing(rv, offset as int, 0) == Some(j as int));
            let t = match self.model_document(reference.name.as_str()) {
                Some(t) => t,
                None => return None,
            };
            assert(self@[t as int] == self.documents@[t as int]@);
            return Some(
                ResolvedSymbol {
                    target: SymbolTarget::Model { uri: self.documents[t].symbols.uri.clone() },
                    occurrence: SymbolOccurrence {
                        uri: uri.to_owned(),
                        range: reference.name_range,
                        kind: OccurrenceKind::Text,
                    },
                    context: SymbolContext::ModelReference { name: reference.name.clone() },
                },
            );
        }
        assert(reference_containing(rv, offset as int, 0) is None);
        match document.instance_scoped_reference_at(offset) {
            Some(reference) => {
                let (t, port) = match self.resolve_instance_scoped_reference(document, &reference) {
                    Some(x) => x,
                    None => return None,
                };
                assert(self@[t as int] == self.documents@[t as int]@);
                let model_name = self.stem_or_uri(t);
                Some(
                    ResolvedSymbol {
                        target: SymbolTarget::Port {
                            uri: self.documents[t].symbols.uri.clone(),
                            range: port.name_range,
                            direction: reference.direction,
                            name: port.name.clone(),
                        },
                        occurrence: SymbolOccurrence {
                            uri: uri.to_owned(),
                            range: reference.port_range,
                            kind: OccurrenceKind::Read,
                        },
                        context: SymbolContext::InstanceScopedVariable {
                            port_name: reference.port_name,
                            instance_name: reference.instance_name,
                            model_name,
                            direction: reference.direction,
                        },
                    },
                )
            },
            None => match document.port_at(offset) {
                Some((port, direction)) => Some(
                    ResolvedSymbol {
                        target: SymbolTarget::Port {
                            uri: document.uri.clone(),
                            range: port.name_range,
                            direction,
                            name: port.name.clone(),
                        },
                        occurrence: SymbolOccurrence {
                            uri: uri.to_owned(),
                            range: port.name_range,
                            kind: OccurrenceKind::Write,
                        },
                        context: SymbolContext::PortDeclaration { name: port.name.clone(), direction },
                    },
                ),
                None => None,
            },
        }
    }

    /// Where a target is defined.
    pub fn definition_for_target(&self, target: &SymbolTarget) -> (r: Option<DefinitionTarget>)
        ensures
            opt_definition(r) == definition_spec(self@, target@),
    {
        match target {
            SymbolTarget::Model { uri } => match self.document(uri.as_str()) {
                Some(d) => Some(DefinitionTarget { uri: d.uri.clone(), range: d.definition_range }),
                None => None,
            },
            SymbolTarget::Port { uri, range, .. } => Some(DefinitionTarget { uri: uri.clone(), range: *range }),
        }
    }

    /// Where the symbol at an offset is defined.
    pub fn definition_at(&self, uri: &str, offset: usize) -> (r: Option<DefinitionTarget>)
        ensures
            opt_definition(r) == match symbol_at_spec(self@, uri@, offset as int) {
                Some(symbol) => definition_spec(self@, symbol.target),
                None => None,
            },
    {
        match self.symbol_at(uri, offset) {
            Some(symbol) => self.definition_for_target(&symbol.target),
            None => None,
        }
    }

    /// The hover of a resolved symbol, over the text where it occurs.
    pub fn hover_for_symbol(&self, symbol: &ResolvedSymbol) -> (r: crate::lookup::HoverInfo)
        ensures
            r@.range == symbol@.occurrence.range,
            r@.contents == hover_contents_spec(self@, symbol@),
    {
        let contents = match &symbol.context {
            SymbolContext::ModelReference { name } => match self.definition_for_target(&symbol.target) {
                Some(definition) => {
                    let target = match self.position_of(definition.uri.as_str()) {
                        Some(k) => self.stem_or_uri(k),
                        None => definition.uri.clone(),
                    };
                    text5(
                        "**Model reference** `",
                        name.as_str(),
                        "`\n\nResolves to the `",
                        target.as_str(),
                        "` MCDPL document.",
                    )
                },
                None => text3("**Model reference** `", name.as_str(), "`"),
            },
            SymbolContext::InstanceScopedVariable { port_name, instance_name, model_name, direction } => {
                let label = direction.hover_label();
                let head = text5("**", label, " variable** `", port_name.as_str(), "`\n\nResolved through instance `");
                text5(head.as_str(), instance_name.as_str(), "` to `", model_name.as_str(), "`.")
            },
            SymbolContext::PortDeclaration { name, direction } => {
                let label = direction.hover_label();
                let role = direction.role_description();
                text7(
                    "**",
                    label,
                    " declaration** `",
                    name.as_str(),
                    "`\n\nDeclares a ",
                    role,
                    " on this model.",
                )
            },
        };
        crate::lookup::HoverInfo { range: symbol.occurrence.range, contents }
    }

    /// The hover at an offset of a document: the resolved symbol's, else
    /// the language term's or primitive poset's.
    pub fn hover_at(&self, uri: &str, offset: usize) -> (r: Option<crate::lookup::HoverInfo>)
        ensures
            match symbol_at_spec(self@, uri@, offset as int) {
                Some(symbol) => r matches Some(h) && h@.range == symbol.occurrence.range && h@.contents
                    == hover_contents_spec(self@, symbol),
                None => crate::lookup::opt_hover(r) == match document_spec(self@, uri@) {
                    Some(d) => crate::lookup::term_hover_at_spec(d.source, offset as int),
                    None => None,
                },
            },
    {
        match self.symbol_at(uri, offset) {
            Some(symbol) => Some(self.hover_for_symbol(&symbol)),
            None => match self.document(uri) {
                Some(d) => d.term_hover_at(offset),
                None => None,
            },
        }
    }
}

// ---------------------------------------------------------------------------
// Diagnostics that need the project
// ---------------------------------------------------------------------------

/// A diagnostic of the editor on a document of the project.
#[derive(Debug, PartialEq, Eq)]
pub struct ProjectDiagnostic {
    pub code: String,
    pub message: String,
    pub help: Option<String>,
    pub severity: Severity,
    pub range: TextRange,
}

pub struct ProjectDiagnosticView {
    pub code: Seq<char>,
    pub message: Seq<char>,
    pub help: Option<Seq<char>>,
    pub severity: Severity,
    pub range: TextRange,
}

impl View for ProjectDiagnostic {
    type V = ProjectDiagnosticView;

    open spec fn view(&self) -> ProjectDiagnosticView {
        ProjectDiagnosticView {
            code: self.code@,
            message: self.message@,
            help: opt_string(self.help),
            severity: self.severity,
            range: self.range,
        }
    }
}

/// What a diagnostic is reported once for: its code, where it starts, and
/// the name it is about.
pub type ReportKey = (Seq<char>, usize, Seq<char>);

/// Diagnostics so far with the keys they were reported for.
pub struct ReportState {
    pub diagnostics: Seq<ProjectDiagnosticView>,
    pub keys: Seq<ReportKey>,
}

/// Reports a diagnostic unless one with the same key was reported.
pub open spec fn report(st: ReportState, key: ReportKey, d: ProjectDiagnosticView) -> ReportState {
    if st.keys.contains(key) {
        st
    } else {
        ReportState { diagnostics: st.diagnostics.push(d), keys: st.keys.push(key) }
    }
}

pub open spec fn undefined_instance_diagnostic(rf: InstanceScopedReferenceView) -> ProjectDiagnosticView {
    ProjectDiagnosticView {
        code: "lsp.undefined-instance"@,
        message: "instance `"@ + rf.instance_name + "` is not declared in this document"@,
        help: Some(
            "Add a matching `sub "@ + rf.instance_name + " = instance ...` declaration or update the `by "@
                + rf.instance_name + "` reference."@,
        ),
        severity: Severity::Error,
        range: rf.instance_range,
    }
}

pub open spec fn undefined_model_diagnostic(m: ModelReferenceView, instance: Seq<char>) -> ProjectDiagnosticView {
    ProjectDiagnosticView {
        code: "lsp.undefined-model"@,
        message: "model `"@ + m.name + "` for instance `"@ + instance + "` was not found"@,
        help: Some(
            "Add the referenced `.mcdp`, `.mcdp_interface`, or `.mcdp_template` file to this MCDPL library."@,
        ),
        severity: Severity::Error,
        range: m.name_range,
    }
}

pub open spec fn undefined_port_code(d: PortDirection) -> Seq<char> {
    match d {
        PortDirection::Provided => "lsp.undefined-provided-port"@,
        PortDirection::Required => "lsp.undefined-required-port"@,
    }
}

pub open spec fn undefined_port_diagnostic(rf: InstanceScopedReferenceView, model: Seq<char>) -> ProjectDiagnosticView {
    ProjectDiagnosticView {
        code: undefined_port_code(rf.direction),
        message: diagnostic_label_of(rf.direction) + " port `"@ + rf.port_name + "` was not found on instance `"@
            + rf.instance_name + "`"@,
        help: Some(
            "Instance `"@ + rf.instance_name + "` resolves to `"@ + model + "`; check that document's "@
                + keyword_of(rf.direction) + " declarations or update this reference."@,
        ),
        severity: Severity::Error,
        range: rf.port_range,
    }
}

/// The report after one reference scoped by an instance: an instance not
/// declared in the document, an instance model not in the project, or a
/// port that model does not declare.
pub open spec fn instance_reference_step(
    docs: Seq<IndexedDocumentView>,
    d: DocumentSymbolsView,
    st: ReportState,
    rf: InstanceScopedReferenceView,
) -> ReportState {
    match instance_with_name(d.instances, rf.instance_name, 0) {
        None => report(
            st,
            ("lsp.undefined-instance"@, rf.instance_range.start, rf.instance_name),
            undefined_instance_diagnostic(rf),
        ),
        Some(i) => match d.instances[i].model {
            None => st,
            Some(m) => match model_document_spec(docs, m.name) {
                None => report(
                    st,
                    ("lsp.undefined-model"@, m.name_range.start, m.name),
                    undefined_model_diagnostic(m, d.instances[i].name),
                ),
                Some(t) => if port_named_spec(docs[t].symbols, rf.direction, rf.port_name) is Some {
                    st
                } else {
                    report(
                        st,
                        (undefined_port_code(rf.direction), rf.port_range.start, rf.port_name),
                        undefined_port_diagnostic(rf, m.name),
                    )
                },
            },
        },
    }
}

pub open spec fn instance_reference_upto(
    docs: Seq<IndexedDocumentView>,
    d: DocumentSymbolsView,
    refs: Seq<InstanceScopedReferenceView>,
    st: ReportState,
    k: int,
) -> ReportState
    decreases k,
{
    if k <= 0 {
        st
    } else {
        instance_reference_step(docs, d, instance_reference_upto(docs, d, refs, st, k - 1), refs[k - 1])
    }
}

/// The diagnostics of the references scoped by an instance in a document,
/// each key reported once.
pub open spec fn instance_reference_diagnostics_spec(
    docs: Seq<IndexedDocumentView>,
    d: DocumentSymbolsView,
) -> Seq<ProjectDiagnosticView> {
    let refs = scoped_references_spec(d.source);
    instance_reference_upto(docs, d, refs, ReportState { diagnostics: Seq::empty(), keys: Seq::empty() }, refs.len() as int).diagnostics
}

/// The codes of the diagnostics on references scoped by an instance.
pub open spec fn is_undefined_reference_code(c: Seq<char>) -> bool {
    c == "lsp.undefined-instance"@ || c == "lsp.undefined-model"@ || c == "lsp.undefined-provided-port"@
        || c == "lsp.undefined-required-port"@
}

/// A reference scoped by an instance resolves: the instance is declared,
/// and its model, where it names one, is in the project and declares the
/// port in that direction.
pub open spec fn reference_resolves(
    docs: Seq<IndexedDocumentView>,
    d: DocumentSymbolsView,
    rf: InstanceScopedReferenceView,
) -> bool {
    match instance_with_name(d.instances, rf.instance_name, 0) {
        None => false,
        Some(i) => match d.instances[i].model {
            None => true,
            Some(m) => match model_document_spec(docs, m.name) {
                None => false,
                Some(t) => port_named_spec(docs[t].symbols, rf.direction, rf.port_name) is Some,
            },
        },
    }
}

pub open spec fn empty_report() -> ReportState {
    ReportState { diagnostics: Seq::empty(), keys: Seq::empty() }
}

proof fn lemma_instance_reference_upto(
    docs: Seq<IndexedDocumentView>,
    d: DocumentSymbolsView,
    refs: Seq<InstanceScopedReferenceView>,
    k: int,
)
    requires
        0 <= k <= refs.len(),
    ensures
        ({
            let st = instance_reference_upto(docs, d, refs, empty_report(), k);
            &&& st.diagnostics.len() == st.keys.len()
            &&& forall|i: int|
                0 <= i < st.diagnostics.len() ==> (#[trigger] st.diagnostics[i]).severity == Severity::Error
                    && is_undefined_reference_code(st.diagnostics[i].code)
            &&& (st.diagnostics.len() == 0 <==> forall|j: int|
                0 <= j < k ==> reference_resolves(docs, d, #[trigger] refs[j]))
        }),
    decreases k,
{
    if k > 0 {
        lemma_instance_reference_upto(docs, d, refs, k - 1);
        let prev = instance_reference_upto(docs, d, refs, empty_report(), k - 1);
        let st = instance_reference_upto(docs, d, refs, empty_report(), k);
        let rf = refs[k - 1];
        assert(st == instance_reference_step(docs, d, prev, rf));
        if reference_resolves(docs, d, rf) {
            assert(st == prev);
            assert((forall|j: int| 0 <= j < k ==> reference_resolves(docs, d, #[trigger] refs[j])) <==> (forall|j: int|
                0 <= j < k - 1 ==> reference_resolves(docs, d, #[trigger] refs[j])));
        } else {
            assert(st.diagnostics.len() > 0) by {
                if prev.keys.len() == 0 {
                    assert(st.diagnostics.len() == prev.diagnostics.len() + 1);
                }
            }
            assert(!reference_resolves(docs, d, refs[k - 1]));
            assert forall|i: int| 0 <= i < st.diagnostics.len() implies (#[trigger] st.diagnostics[i]).severity
                == Severity::Error && is_undefined_reference_code(st.diagnostics[i].code) by {
                if i < prev.diagnostics.len() {
                    assert(st.diagnostics[i] == prev.diagnostics[i]);
                } else {
                    match rf.direction {
                        PortDirection::Provided => {},
                        PortDirection::Required => {},
                    }
                }
            }
        }
    }
}

/// The diagnostics on references scoped by an instance are errors with the
/// codes of an undefined instance, model, provided port or required port,
/// and there are none exactly when every such reference resolves.
pub proof fn instance_reference_diagnostics_are_undefined_references(
    docs: Seq<IndexedDocumentView>,
    d: DocumentSymbolsView,
)
    ensures
        ({
            let ds = instance_reference_diagnostics_spec(docs, d);
            let refs = scoped_references_spec(d.source);
            &&& forall|i: int|
                0 <= i < ds.len() ==> (#[trigger] ds[i]).severity == Severity::Error && is_undefined_reference_code(
                    ds[i].code,
                )
            &&& (ds.len() == 0 <==> forall|j: int| 0 <= j < refs.len() ==> reference_resolves(docs, d, #[trigger] refs[j]))
        }),
{
    let refs = scoped_references_spec(d.source);
    lemma_instance_reference_upto(docs, d, refs, refs.len() as int);
    assert(empty_report() == ReportState { diagnostics: Seq::empty(), keys: Seq::empty() });
}

/// A key held as exec values.
pub struct ReportedKey {
    pub code: String,
    pub start: usize,
    pub name: String,
}

pub open spec fn keys_view(keys: Seq<ReportedKey>) -> Seq<ReportKey> {
    keys.map_values(|k: ReportedKey| (k.code@, k.start, k.name@))
}

fn has_key(keys: &Vec<ReportedKey>, code: &str, start: usize, name: &str) -> (r: bool)
    ensures
        r == keys_view(keys@).contains((code@, start, name@)),
{
    let ghost kv = keys_view(keys@);
    let mut i: usize = 0;
    while i < keys.len()
        invariant
            i <= keys@.len(),
            kv == keys_view(keys@),
            forall|j: int| 0 <= j < i ==> kv[j] != (code@, start, name@),
        decreases keys@.len() - i,
    {
        let k = &keys[i];
        assert(kv[i as int] == (k.code@, k.start, k.name@));
        if k.start == start && str_eq(k.code.as_str(), code) && str_eq(k.name.as_str(), name) {
            assert(kv[i as int] == (code@, start, name@));
            return true;
        }
        i = i + 1;
    }
    false
}

fn report_once(
    diagnostics: &mut Vec<ProjectDiagnostic>,
    keys: &mut Vec<ReportedKey>,
    code: &str,
    start: usize,
    name: &str,
    d: ProjectDiagnostic,
)
    ensures
        ({
            let after = report(
                ReportState { diagnostics: views(old(diagnostics)@), keys: keys_view(old(keys)@) },
                (code@, start, name@),
                d@,
            );
            views(final(diagnostics)@) == after.diagnostics && keys_view(final(keys)@) == after.keys
        }),
{
    if !has_key(keys, code, start, name) {
        let k = ReportedKey { code: code.to_owned(), start, name: name.to_owned() };
        assert(keys_view(keys@.push(k)) =~= keys_view(keys@).push((code@, start, name@)));
        keys.push(k);
        proof {
            lemma_views_push(diagnostics@, d);
        }
        diagnostics.push(d);
    }
}

impl ProjectSymbolIndex {
    fn instance_reference_step(
        &self,
        document: &DocumentSymbols,
        reference: &InstanceScopedReference,
        diagnostics: &mut Vec<ProjectDiagnostic>,
        keys: &mut Vec<ReportedKey>,
    )
        ensures
            ({
                let after = instance_reference_step(
                    self@,
                    document@,
                    ReportState { diagnostics: views(old(diagnostics)@), keys: keys_view(old(keys)@) },
                    reference@,
                );
                views(final(diagnostics)@) == after.diagnostics && keys_view(final(keys)@) == after.keys
            }),
    {
        let instance = match instance_named(document, reference.instance_name.as_str()) {
            Some(b) => b,
            None => {
                let name = reference.instance_name.as_str();
                let d = ProjectDiagnostic {
                    code: "lsp.undefined-instance".to_owned(),
                    message: text3("instance `", name, "` is not declared in this document"),
                    help: Some(
                        text5(
                            "Add a matching `sub ",
                            name,
                            " = instance ...` declaration or update the `by ",
                            name,
                            "` reference.",
                        ),
                    ),
                    severity: Severity::Error,
                    range: reference.instance_range,
                };
                report_once(diagnostics, keys, "lsp.undefined-instance", reference.instance_range.start, name, d);
                return ;
            },
        };
        let model = match &instance.model {
            Some(m) => m,
            None => return ,
        };
        let t = match self.model_document(model.name.as_str()) {
            Some(t) => t,
            None => {
                let d = ProjectDiagnostic {
                    code: "lsp.undefined-model".to_owned(),
                    message: text5(
                        "model `",
                        model.name.as_str(),
                        "` for instance `",
                        instance.name.as_str(),
                        "` was not found",
                    ),
                    help: Some(
                        "Add the referenced `.mcdp`, `.mcdp_interface`, or `.mcdp_template` file to this MCDPL library.".to_owned(),
                    ),
                    severity: Severity::Error,
                    range: model.name_range,
                };
                report_once(diagnostics, keys, "lsp.undefined-model", model.name_range.start, model.name.as_str(), d);
                return ;
            },
        };
        assert(self@[t as int] == self.documents@[t as int]@);
        if self.documents[t].symbols.port_named(reference.direction, reference.port_name.as_str()).is_some() {
            return ;
        }
        let code = match reference.direction {
            PortDirection::Provided => "lsp.undefined-provided-port",
            PortDirection::Required => "lsp.undefined-required-port",
        };
        let message = text6(
            reference.direction.diagnostic_label(),
            " port `",
            reference.port_name.as_str(),
            "` was not found on instance `",
            reference.instance_name.as_str(),
            "`",
        );
        let help = text7(
            "Instance `",
            reference.instance_name.as_str(),
            "` resolves to `",
            model.name.as_str(),
            "`; check that document's ",
            reference.direction.declaration_keyword(),
            " declarations or update this reference.",
        );
        let d = ProjectDiagnostic {
            code: code.to_owned(),
            message,
            help: Some(help),
            severity: Severity::Error,
            range: reference.port_range,
        };
        report_once(diagnostics, keys, code, reference.port_range.start, reference.port_name.as_str(), d);
    }

    /// The diagnostics of the references scoped by an instance in a
    /// document: an instance it does not declare, an instance model the
    /// project lacks, or a port that model does not declare; each once.
    pub fn instance_reference_diagnostics(&self, document: &DocumentSymbols) -> (r: Vec<ProjectDiagnostic>)
        ensures
            views(r@) == instance_reference_diagnostics_spec(self@, document@),
    {
        let references = document.instance_scoped_references();
        let ghost refs = views(references@);
        let ghost start = ReportState { diagnostics: Seq::empty(), keys: Seq::empty() };
        let mut diagnostics: Vec<ProjectDiagnostic> = Vec::new();
        let mut keys: Vec<ReportedKey> = Vec::new();
        assert(views(diagnostics@) =~= Seq::<ProjectDiagnosticView>::empty());
        assert(keys_view(keys@) =~= Seq::<ReportKey>::empty());
        let mut i: usize = 0;
        while i < references.len()
            invariant
                i <= references@.len(),
                refs == views(references@),
                ({
                    let st = instance_reference_upto(self@, document@, refs, start, i as int);
                    views(diagnostics@) == st.diagnostics && keys_view(keys@) == st.keys
                }),
            decreases references@.len() - i,
        {
            assert(refs[i as int] == references@[i as int]@);
            self.instance_reference_step(document, &references[i], &mut diagnostics, &mut keys);
            i = i + 1;
        }
        diagnostics
    }
}

/// The diagnostic of a unit atom that is neither a base unit nor a poset
/// of the project.
pub open spec fn undefined_atom_diagnostic(unit: crate::symbols::DeclaredUnitView, atom: (Seq<char>, bool)) -> ProjectDiagnosticView {
    if atom.1 {
        ProjectDiagnosticView {
            code: "lsp.undefined-poset"@,
            message: "named poset `"@ + atom.0 + "` was not found"@,
            help: Some("Named posets are resolved as `.mcdp_poset` files in the current MCDPL library."@),
            severity: Severity::Warning,
            range: unit.range,
        }
    } else {
        ProjectDiagnosticView {
            code: "lsp.undefined-unit"@,
            message: "unit `"@ + atom.0 + "` is not a known base unit or project poset"@,
            help: Some(
                "Define a matching `.mcdp_poset` file or use a built-in unit/poset such as Nat, Bool, USD, kg, m, or s."@,
            ),
            severity: Severity::Warning,
            range: unit.range,
        }
    }
}

/// The report after one atom of a declared unit.
pub open spec fn undefined_atom_step(
    docs: Seq<IndexedDocumentView>,
    st: ReportState,
    unit: crate::symbols::DeclaredUnitView,
    atom: (Seq<char>, bool),
) -> ReportState {
    if crate::symbols::is_base_unit_spec(atom.0) || poset_document_from(docs, atom.0, 0) is Some {
        st
    } else {
        report(st, ("unit"@, unit.range.start, atom.0), undefined_atom_diagnostic(unit, atom))
    }
}

pub open spec fn undefined_atoms_upto(
    docs: Seq<IndexedDocumentView>,
    st: ReportState,
    unit: crate::symbols::DeclaredUnitView,
    atoms: Seq<(Seq<char>, bool)>,
    k: int,
) -> ReportState
    decreases k,
{
    if k <= 0 {
        st
    } else {
        undefined_atom_step(docs, undefined_atoms_upto(docs, st, unit, atoms, k - 1), unit, atoms[k - 1])
    }
}

pub open spec fn undefined_units_upto(
    docs: Seq<IndexedDocumentView>,
    units: Seq<crate::symbols::DeclaredUnitView>,
    st: ReportState,
    k: int,
) -> ReportState
    decreases k,
{
    if k <= 0 {
        st
    } else {
        let atoms = crate::symbols::unit_atoms_spec(units[k - 1].name);
        undefined_atoms_upto(docs, undefined_units_upto(docs, units, st, k - 1), units[k - 1], atoms, atoms.len() as int)
    }
}

/// The diagnostics of the declared units of a document: each atom that is
/// neither a base unit nor a `.mcdp_poset` of the project, once per unit
/// and name.
pub open spec fn undefined_unit_diagnostics_spec(docs: Seq<IndexedDocumentView>, d: DocumentSymbolsView) -> Seq<
    ProjectDiagnosticView,
> {
    undefined_units_upto(
        docs,
        d.declared_units,
        ReportState { diagnostics: Seq::empty(), keys: Seq::empty() },
        d.declared_units.len() as int,
    ).diagnostics
}

impl ProjectSymbolIndex {
    fn undefined_atom_step(
        &self,
        unit: &crate::symbols::DeclaredUnit,
        atom: &crate::symbols::UnitAtom,
        diagnostics: &mut Vec<ProjectDiagnostic>,
        keys: &mut Vec<ReportedKey>,
    )
        ensures
            ({
                let after = undefined_atom_step(
                    self@,
                    ReportState { diagnostics: views(old(diagnostics)@), keys: keys_view(old(keys)@) },
                    unit@,
                    (atom.name@, atom.named),
                );
                views(final(diagnostics)@) == after.diagnostics && keys_view(final(keys)@) == after.keys
            }),
    {
        let name = atom.name.as_str();
        if crate::symbols::is_base_unit_atom(name) || self.poset_document(name).is_some() {
            return ;
        }
        let d = if atom.named {
            ProjectDiagnostic {
                code: "lsp.undefined-poset".to_owned(),
                message: text3("named poset `", name, "` was not found"),
                help: Some("Named posets are resolved as `.mcdp_poset` files in the current MCDPL library.".to_owned()),
                severity: Severity::Warning,
                range: unit.range,
            }
        } else {
            ProjectDiagnostic {
                code: "lsp.undefined-unit".to_owned(),
                message: text3("unit `", name, "` is not a known base unit or project poset"),
                help: Some(
                    "Define a matching `.mcdp_poset` file or use a built-in unit/poset such as Nat, Bool, USD, kg, m, or s.".to_owned(),
                ),
                severity: Severity::Warning,
                range: unit.range,
            }
        };
        report_once(diagnostics, keys, "unit", unit.range.start, name, d);
    }

    /// The diagnostics of the declared units of a document: each atom that
    /// is neither a base unit nor a `.mcdp_poset` of the project, once per
    /// unit and name.
    pub fn undefined_unit_diagnostics(&self, document: &DocumentSymbols) -> (r: Vec<ProjectDiagnostic>)
        ensures
            views(r@) == undefined_unit_diagnostics_spec(self@, document@),
    {
        let units = &document.declared_units;
        let ghost uv = document@.declared_units;
        let ghost start = ReportState { diagnostics: Seq::empty(), keys: Seq::empty() };
        let mut diagnostics: Vec<ProjectDiagnostic> = Vec::new();
        let mut keys: Vec<ReportedKey> = Vec::new();
        assert(views(diagnostics@) =~= Seq::<ProjectDiagnosticView>::empty());
        assert(keys_view(keys@) =~= Seq::<ReportKey>::empty());
        let mut i: usize = 0;
        while i < units.len()
            invariant
                i <= units@.len(),
                uv == views(units@),
                ({
                    let st = undefined_units_upto(self@, uv, start, i as int);
                    views(diagnostics@) == st.diagnostics && keys_view(keys@) == st.keys
                }),
            decreases units@.len() - i,
        {
            let unit = &units[i];
            assert(uv[i as int] == unit@);
            let atoms = crate::symbols::unit_atoms(unit.name.as_str());
            let ghost av = crate::symbols::atoms_view(atoms@);
            let ghost before = ReportState { diagnostics: views(diagnostics@), keys: keys_view(keys@) };
            let mut j: usize = 0;
            while j < atoms.len()
                invariant
                    j <= atoms@.len(),
                    av == crate::symbols::atoms_view(atoms@),
                    ({
                        let st = undefined_atoms_upto(self@, before, unit@, av, j as int);
                        views(diagnostics@) == st.diagnostics && keys_view(keys@) == st.keys
                    }),
                decreases atoms@.len() - j,
            {
                assert(av[j as int] == (atoms@[j as int].name@, atoms@[j as int].named));
                self.undefined_atom_step(unit, &atoms[j], &mut diagnostics, &mut keys);
                j = j + 1;
            }
            i = i + 1;
        }
        diagnostics
    }
}

/// The diagnostics of a document that need the project: its references
/// scoped by an instance, then its declared units, then the units of its
/// relations.
pub open spec fn semantic_diagnostics_spec(docs: Seq<IndexedDocumentView>, uri: Seq<char>) -> Seq<ProjectDiagnosticView> {
    match document_spec(docs, uri) {
        None => Seq::empty(),
        Some(d) => instance_reference_diagnostics_spec(docs, d) + undefined_unit_diagnostics_spec(docs, d)
            + crate::agreement::unit_agreement_diagnostics_spec(docs, d),
    }
}

fn append_diagnostics(diagnostics: &mut Vec<ProjectDiagnostic>, more: &Vec<ProjectDiagnostic>)
    ensures
        views(final(diagnostics)@) == views(old(diagnostics)@) + views(more@),
{
    let ghost first = views(diagnostics@);
    let mut i: usize = 0;
    while i < more.len()
        invariant
            i <= more@.len(),
            views(diagnostics@) == first + views(more@).take(i as int),
        decreases more@.len() - i,
    {
        let d = ProjectDiagnostic {
            code: more[i].code.clone(),
            message: more[i].message.clone(),
            help: more[i].help.clone(),
            severity: more[i].severity,
            range: more[i].range,
        };
        assert(d@ == views(more@)[i as int]);
        proof {
            lemma_views_push(diagnostics@, d);
            assert(views(more@).take(i + 1) =~= views(more@).take(i as int).push(d@));
        }
        diagnostics.push(d);
        i = i + 1;
    }
    assert(views(more@).take(more@.len() as int) =~= views(more@));
}

impl ProjectSymbolIndex {
    /// The diagnostics of a document that need the project.
    pub fn semantic_diagnostics(&self, uri: &str) -> (r: Vec<ProjectDiagnostic>)
        ensures
            views(r@) == semantic_diagnostics_spec(self@, uri@),
    {
        let document = match self.document(uri) {
            Some(d) => d,
            None => {
                let r: Vec<ProjectDiagnostic> = Vec::new();
                assert(views(r@) =~= Seq::<ProjectDiagnosticView>::empty());
                return r;
            },
        };
        let mut diagnostics = self.instance_reference_diagnostics(document);
        let units = self.undefined_unit_diagnostics(document);
        append_diagnostics(&mut diagnostics, &units);
        let relations = self.unit_agreement_diagnostics(document);
        append_diagnostics(&mut diagnostics, &relations);
        diagnostics
    }
}

// ---------------------------------------------------------------------------
// References
// ---------------------------------------------------------------------------

/// The order of occurrences: by URI, then start, then end.
pub open spec fn occurrence_lt(a: SymbolOccurrenceView, b: SymbolOccurrenceView) -> bool {
    crate::units::seq_lt(a.uri, b.uri) || (a.uri == b.uri && (a.range.start < b.range.start || (a.range.start
        == b.range.start && a.range.end < b.range.end)))
}

/// Where an occurrence goes among sorted ones: after every one not greater.
pub open spec fn insert_position(s: Seq<SymbolOccurrenceView>, x: SymbolOccurrenceView, j: int) -> int
    decreases j,
{
    if j > 0 && occurrence_lt(x, s[j - 1]) {
        insert_position(s, x, j - 1)
    } else {
        j
    }
}

/// The occurrences sorted stably, the first `k` of them.
pub open spec fn sorted_upto(s: Seq<SymbolOccurrenceView>, k: int) -> Seq<SymbolOccurrenceView>
    decreases k,
{
    if k <= 0 {
        Seq::empty()
    } else {
        let p = sorted_upto(s, k - 1);
        p.insert(insert_position(p, s[k - 1], p.len() as int), s[k - 1])
    }
}

/// Consecutive occurrences with one URI and range kept once: the first.
pub open spec fn dedup_upto(s: Seq<SymbolOccurrenceView>, k: int) -> Seq<SymbolOccurrenceView>
    decreases k,
{
    if k <= 0 {
        Seq::empty()
    } else {
        let p = dedup_upto(s, k - 1);
        if p.len() > 0 && p.last().uri == s[k - 1].uri && p.last().range == s[k - 1].range {
            p
        } else {
            p.push(s[k - 1])
        }
    }
}

/// The uses of model references that resolve to the document with this
/// URI, over the documents up to `k`, each document's references in order.
pub open spec fn model_occurrences_in(docs: Seq<IndexedDocumentView>, target: Seq<char>, d: DocumentSymbolsView, k: int) -> Seq<
    SymbolOccurrenceView,
>
    decreases k,
{
    if k <= 0 {
        Seq::empty()
    } else {
        let p = model_occurrences_in(docs, target, d, k - 1);
        let reference = d.model_references[k - 1];
        match model_document_spec(docs, reference.name) {
            Some(t) => if docs[t].symbols.uri == target {
                p.push(SymbolOccurrenceView { uri: d.uri, range: reference.name_range, kind: OccurrenceKind::Text })
            } else {
                p
            },
            None => p,
        }
    }
}

pub open spec fn model_occurrences_upto(docs: Seq<IndexedDocumentView>, target: Seq<char>, k: int) -> Seq<
    SymbolOccurrenceView,
>
    decreases k,
{
    if k <= 0 {
        Seq::empty()
    } else {
        let d = docs[k - 1].symbols;
        model_occurrences_upto(docs, target, k - 1) + model_occurrences_in(
            docs,
            target,
            d,
            d.model_references.len() as int,
        )
    }
}

/// The uses, among a document's first `k` references scoped by an instance,
/// that resolve to the target port.
pub open spec fn port_occurrences_in(
    docs: Seq<IndexedDocumentView>,
    target: SymbolTargetView,
    d: DocumentSymbolsView,
    refs: Seq<InstanceScopedReferenceView>,
    k: int,
) -> Seq<SymbolOccurrenceView>
    decreases k,
{
    if k <= 0 {
        Seq::empty()
    } else {
        let p = port_occurrences_in(docs, target, d, refs, k - 1);
        let rf = refs[k - 1];
        match resolve_spec(docs, d, rf) {
            Some((t, port)) => if (SymbolTargetView::Port {
                uri: docs[t].symbols.uri,
                range: port.name_range,
                direction: rf.direction,
                name: port.name,
            }) == target {
                p.push(SymbolOccurrenceView { uri: d.uri, range: rf.port_range, kind: OccurrenceKind::Read })
            } else {
                p
            },
            None => p,
        }
    }
}

pub open spec fn port_occurrences_upto(docs: Seq<IndexedDocumentView>, target: SymbolTargetView, k: int) -> Seq<
    SymbolOccurrenceView,
>
    decreases k,
{
    if k <= 0 {
        Seq::empty()
    } else {
        let d = docs[k - 1].symbols;
        let refs = scoped_references_spec(d.source);
        port_occurrences_upto(docs, target, k - 1) + port_occurrences_in(docs, target, d, refs, refs.len() as int)
    }
}

/// The occurrences of a symbol before sorting: its definition first when
/// asked for, then its uses across the project.
pub open spec fn raw_references_spec(docs: Seq<IndexedDocumentView>, target: SymbolTargetView, include_declaration: bool) -> Seq<
    SymbolOccurrenceView,
> {
    let declaration = if include_declaration {
        match definition_spec(docs, target) {
            Some(def) => seq![SymbolOccurrenceView { uri: def.uri, range: def.range, kind: OccurrenceKind::Write }],
            None => Seq::empty(),
        }
    } else {
        Seq::empty()
    };
    let uses = match target {
        SymbolTargetView::Model { uri } => model_occurrences_upto(docs, uri, docs.len() as int),
        SymbolTargetView::Port { .. } => port_occurrences_upto(docs, target, docs.len() as int),
    };
    declaration + uses
}

/// The occurrences of a symbol across the project, sorted by URI and range,
/// each place once.
pub open spec fn references_spec(docs: Seq<IndexedDocumentView>, target: SymbolTargetView, include_declaration: bool) -> Seq<
    SymbolOccurrenceView,
> {
    let raw = raw_references_spec(docs, target, include_declaration);
    let sorted = sorted_upto(raw, raw.len() as int);
    dedup_upto(sorted, sorted.len() as int)
}

/// Two occurrences at one place: the same URI and range.
pub open spec fn same_place(a: SymbolOccurrenceView, b: SymbolOccurrenceView) -> bool {
    a.uri == b.uri && a.range == b.range
}

/// No later occurrence comes before an earlier one.
pub open spec fn occurrences_sorted(s: Seq<SymbolOccurrenceView>) -> bool {
    forall|i: int, j: int| 0 <= i < j < s.len() ==> !occurrence_lt(#[trigger] s[j], #[trigger] s[i])
}

/// Each occurrence comes before every later one.
pub open spec fn occurrences_increasing(s: Seq<SymbolOccurrenceView>) -> bool {
    forall|i: int, j: int| 0 <= i < j < s.len() ==> occurrence_lt(#[trigger] s[i], #[trigger] s[j])
}

proof fn lemma_occurrence_order(a: SymbolOccurrenceView, b: SymbolOccurrenceView, c: SymbolOccurrenceView)
    ensures
        !occurrence_lt(a, a),
        occurrence_lt(a, b) && occurrence_lt(b, c) ==> occurrence_lt(a, c),
        occurrence_lt(a, b) || occurrence_lt(b, a) || same_place(a, b),
        occurrence_lt(a, b) ==> !occurrence_lt(b, a) && !same_place(a, b),
        !occurrence_lt(a, b) && !occurrence_lt(b, c) ==> !occurrence_lt(a, c),
        same_place(a, b) ==> (occurrence_lt(a, c) == occurrence_lt(b, c) && occurrence_lt(c, a) == occurrence_lt(
            c,
            b,
        )),
{
    crate::units::lemma_seq_lt_irreflexive(a.uri);
    crate::units::lemma_seq_lt_irreflexive(b.uri);
    if crate::units::seq_lt(a.uri, b.uri) {
        crate::units::lemma_seq_lt_asymmetric(a.uri, b.uri);
    }
    if crate::units::seq_lt(b.uri, a.uri) {
        crate::units::lemma_seq_lt_asymmetric(b.uri, a.uri);
    }
    if a.uri != b.uri {
        crate::units::lemma_seq_lt_total(a.uri, b.uri);
    }
    if crate::units::seq_lt(a.uri, b.uri) && crate::units::seq_lt(b.uri, c.uri) {
        crate::units::lemma_seq_lt_transitive(a.uri, b.uri, c.uri);
    }
    if crate::units::seq_lt(a.uri, c.uri) && crate::units::seq_lt(c.uri, b.uri) {
        crate::units::lemma_seq_lt_transitive(a.uri, c.uri, b.uri);
    }
    if crate::units::seq_lt(b.uri, a.uri) && crate::units::seq_lt(a.uri, c.uri) {
        crate::units::lemma_seq_lt_transitive(b.uri, a.uri, c.uri);
    }
    if crate::units::seq_lt(c.uri, b.uri) && crate::units::seq_lt(b.uri, a.uri) {
        crate::units::lemma_seq_lt_transitive(c.uri, b.uri, a.uri);
    }
    if crate::units::seq_lt(b.uri, c.uri) && crate::units::seq_lt(c.uri, a.uri) {
        crate::units::lemma_seq_lt_transitive(b.uri, c.uri, a.uri);
    }
    if crate::units::seq_lt(c.uri, a.uri) && crate::units::seq_lt(a.uri, b.uri) {
        crate::units::lemma_seq_lt_transitive(c.uri, a.uri, b.uri);
    }
    if b.uri != c.uri {
        crate::units::lemma_seq_lt_total(b.uri, c.uri);
    }
    if a.uri != c.uri {
        crate::units::lemma_seq_lt_total(a.uri, c.uri);
    }
}

proof fn lemma_insert_position(s: Seq<SymbolOccurrenceView>, x: SymbolOccurrenceView, j: int)
    requires
        0 <= j <= s.len(),
    ensures
        0 <= insert_position(s, x, j) <= j,
        forall|i: int| insert_position(s, x, j) <= i < j ==> occurrence_lt(x, #[trigger] s[i]),
        insert_position(s, x, j) > 0 ==> !occurrence_lt(x, s[insert_position(s, x, j) - 1]),
    decreases j,
{
    if j > 0 && occurrence_lt(x, s[j - 1]) {
        lemma_insert_position(s, x, j - 1);
    }
}

#[verifier::spinoff_prover]
proof fn lemma_sorted_insert(s: Seq<SymbolOccurrenceView>, x: SymbolOccurrenceView)
    requires
        occurrences_sorted(s),
    ensures
        occurrences_sorted(s.insert(insert_position(s, x, s.len() as int), x)),
{
    let p = insert_position(s, x, s.len() as int);
    lemma_insert_position(s, x, s.len() as int);
    let t = s.insert(p, x);
    assert forall|i: int, j: int| 0 <= i < j < t.len() implies !occurrence_lt(#[trigger] t[j], #[trigger] t[i]) by {
        if j < p {
            assert(t[i] == s[i] && t[j] == s[j]);
        } else if j == p {
            assert(t[i] == s[i]);
            assert(!occurrence_lt(s[p - 1], s[i])) by {
                if i < p - 1 {
                    assert(!occurrence_lt(s[p - 1], s[i]));
                } else {
                    lemma_occurrence_order(s[i], s[i], s[i]);
                }
            }
            lemma_occurrence_order(x, s[p - 1], s[i]);
        } else if i == p {
            assert(t[j] == s[j - 1]);
            assert(occurrence_lt(x, s[j - 1]));
            lemma_occurrence_order(x, s[j - 1], x);
        } else if i < p {
            assert(t[i] == s[i] && t[j] == s[j - 1]);
        } else {
            assert(t[i] == s[i - 1] && t[j] == s[j - 1]);
        }
    }
}

#[verifier::spinoff_prover]
proof fn lemma_sorted_upto(s: Seq<SymbolOccurrenceView>, k: int)
    requires
        0 <= k <= s.len(),
    ensures
        sorted_upto(s, k).len() == k,
        occurrences_sorted(sorted_upto(s, k)),
        forall|y: SymbolOccurrenceView| #[trigger] sorted_upto(s, k).contains(y) <==> s.take(k).contains(y),
    decreases k,
{
    if k > 0 {
        lemma_sorted_upto(s, k - 1);
        let p = sorted_upto(s, k - 1);
        let q = insert_position(p, s[k - 1], p.len() as int);
        lemma_insert_position(p, s[k - 1], p.len() as int);
        lemma_sorted_insert(p, s[k - 1]);
        let t = p.insert(q, s[k - 1]);
        assert forall|y: SymbolOccurrenceView| #[trigger] t.contains(y) <==> s.take(k).contains(y) by {
            if t.contains(y) {
                let i = choose|i: int| 0 <= i < t.len() && #[trigger] t[i] == y;
                if i < q {
                    assert(p[i] == y);
                    assert(p.contains(y));
                    let m = choose|m: int| 0 <= m < k - 1 && #[trigger] s.take(k - 1)[m] == y;
                    assert(s.take(k)[m] == y);
                } else if i == q {
                    assert(s.take(k)[k - 1] == y);
                } else {
                    assert(p[i - 1] == y);
                    assert(p.contains(y));
                    let m = choose|m: int| 0 <= m < k - 1 && #[trigger] s.take(k - 1)[m] == y;
                    assert(s.take(k)[m] == y);
                }
            }
            if s.take(k).contains(y) {
                let m = choose|m: int| 0 <= m < k && #[trigger] s.take(k)[m] == y;
                if m == k - 1 {
                    assert(t[q] == y);
                } else {
                    assert(s.take(k - 1)[m] == y);
                    assert(p.contains(y));
                    let i = choose|i: int| 0 <= i < p.len() && #[trigger] p[i] == y;
                    if i < q {
                        assert(t[i] == y);
                    } else {
                        assert(t[i + 1] == y);
                    }
                }
            }
        }
    } else {
        assert(s.take(k) =~= Seq::<SymbolOccurrenceView>::empty());
    }
}

#[verifier::spinoff_prover]
proof fn lemma_dedup_upto(s: Seq<SymbolOccurrenceView>, k: int)
    requires
        0 <= k <= s.len(),
        occurrences_sorted(s),
    ensures
        occurrences_increasing(dedup_upto(s, k)),
        k > 0 ==> dedup_upto(s, k).len() > 0 && same_place(dedup_upto(s, k).last(), s[k - 1]),
        forall|y: SymbolOccurrenceView| #[trigger] dedup_upto(s, k).contains(y) ==> s.take(k).contains(y),
        forall|m: int|
            #![trigger s[m]]
            0 <= m < k ==> exists|i: int|
                0 <= i < dedup_upto(s, k).len() && same_place(#[trigger] dedup_upto(s, k)[i], s[m]),
    decreases k,
{
    if k > 0 {
        lemma_dedup_upto(s, k - 1);
        let p = dedup_upto(s, k - 1);
        let r = dedup_upto(s, k);
        assert forall|y: SymbolOccurrenceView| #[trigger] r.contains(y) implies s.take(k).contains(y) by {
            let i = choose|i: int| 0 <= i < r.len() && #[trigger] r[i] == y;
            if i < p.len() {
                assert(p[i] == y);
                assert(p.contains(y));
                let m = choose|m: int| 0 <= m < k - 1 && #[trigger] s.take(k - 1)[m] == y;
                assert(s.take(k)[m] == y);
            } else {
                assert(s.take(k)[k - 1] == y);
            }
        }
        if p.len() > 0 && p.last().uri == s[k - 1].uri && p.last().range == s[k - 1].range {
            assert forall|m: int| #![trigger s[m]] 0 <= m < k implies exists|i: int|
                0 <= i < r.len() && same_place(#[trigger] r[i], s[m]) by {
                if m == k - 1 {
                    assert(same_place(r[r.len() - 1], s[m]));
                }
            }
        } else {
            if p.len() > 0 {
                let last = p.last();
                assert(!occurrence_lt(s[k - 1], s[k - 2]));
                lemma_occurrence_order(last, s[k - 2], s[k - 1]);
                lemma_occurrence_order(s[k - 2], s[k - 1], last);
                assert(occurrence_lt(last, s[k - 1]));
                assert forall|i: int, j: int| 0 <= i < j < r.len() implies occurrence_lt(
                    #[trigger] r[i],
                    #[trigger] r[j],
                ) by {
                    if j < p.len() {
                        assert(r[i] == p[i] && r[j] == p[j]);
                    } else if i < p.len() - 1 {
                        assert(occurrence_lt(p[i], p[p.len() - 1]));
                        lemma_occurrence_order(p[i], last, s[k - 1]);
                    }
                }
            }
            assert forall|m: int| #![trigger s[m]] 0 <= m < k implies exists|i: int|
                0 <= i < r.len() && same_place(#[trigger] r[i], s[m]) by {
                if m == k - 1 {
                    assert(same_place(r[r.len() - 1], s[m]));
                } else {
                    let i = choose|i: int| 0 <= i < p.len() && same_place(#[trigger] p[i], s[m]);
                    assert(r[i] == p[i]);
                }
            }
        }
    }
}

/// The references to a symbol come ordered by URI, then start, then end,
/// each place once; they are drawn from the symbol's occurrences, and every
/// place where the symbol occurs is among them.
#[verifier::spinoff_prover]
pub proof fn references_are_ordered_and_complete(
    docs: Seq<IndexedDocumentView>,
    target: SymbolTargetView,
    include_declaration: bool,
)
    ensures
        ({
            let r = references_spec(docs, target, include_declaration);
            let raw = raw_references_spec(docs, target, include_declaration);
            &&& forall|i: int, j: int| 0 <= i < j < r.len() ==> occurrence_lt(#[trigger] r[i], #[trigger] r[j])
            &&& forall|i: int, j: int| 0 <= i < j < r.len() ==> !same_place(#[trigger] r[i], #[trigger] r[j])
            &&& forall|i: int| 0 <= i < r.len() ==> raw.contains(#[trigger] r[i])
            &&& forall|m: int|
                #![trigger raw[m]]
                0 <= m < raw.len() ==> exists|i: int| 0 <= i < r.len() && same_place(#[trigger] r[i], raw[m])
        }),
{
    let raw = raw_references_spec(docs, target, include_declaration);
    let sorted = sorted_upto(raw, raw.len() as int);
    let r = dedup_upto(sorted, sorted.len() as int);
    assert(r == references_spec(docs, target, include_declaration));
    lemma_sorted_upto(raw, raw.len() as int);
    lemma_dedup_upto(sorted, sorted.len() as int);
    assert(occurrences_increasing(r));
    assert forall|i: int, j: int| 0 <= i < j < r.len() implies occurrence_lt(#[trigger] r[i], #[trigger] r[j]) by {
        assert(occurrences_increasing(r));
    }
    assert forall|i: int, j: int| 0 <= i < j < r.len() implies !same_place(#[trigger] r[i], #[trigger] r[j]) by {
        assert(occurrence_lt(r[i], r[j]));
        lemma_occurrence_order(r[i], r[j], r[j]);
    }
    assert forall|i: int| 0 <= i < r.len() implies raw.contains(#[trigger] r[i]) by {
        assert(raw.take(raw.len() as int) =~= raw);
        assert(sorted.take(sorted.len() as int) =~= sorted);
        assert(r.contains(r[i]));
        assert(sorted.take(sorted.len() as int).contains(r[i]));
        assert(sorted.contains(r[i]));
        assert(raw.take(raw.len() as int).contains(r[i]));
    }
    assert forall|m: int| #![trigger raw[m]] 0 <= m < raw.len() implies exists|i: int|
        0 <= i < r.len() && same_place(#[trigger] r[i], raw[m]) by {
        assert(raw.take(raw.len() as int) =~= raw);
        assert(raw.take(raw.len() as int).contains(raw[m]));
        assert(sorted.contains(raw[m]));
        let n = choose|n: int| 0 <= n < sorted.len() && #[trigger] sorted[n] == raw[m];
        assert(0 <= n < sorted.len());
        let i = choose|i: int| 0 <= i < r.len() && same_place(#[trigger] r[i], sorted[n]);
        assert(same_place(r[i], raw[m]));
    }
}

fn copy_occurrence(o: &SymbolOccurrence) -> (r: SymbolOccurrence)
    ensures
        r@ == o@,
{
    SymbolOccurrence { uri: o.uri.clone(), range: o.range, kind: o.kind }
}

fn occurrence_less(a: &SymbolOccurrence, b: &SymbolOccurrence) -> (r: bool)
    ensures
        r == occurrence_lt(a@, b@),
{
    let au = crate::text::chars_of(a.uri.as_str());
    let bu = crate::text::chars_of(b.uri.as_str());
    if crate::units::key_lt(au.as_slice(), bu.as_slice()) {
        return true;
    }
    if !str_eq(a.uri.as_str(), b.uri.as_str()) {
        return false;
    }
    a.range.start < b.range.start || (a.range.start == b.range.start && a.range.end < b.range.end)
}

fn sort_occurrences(v: &Vec<SymbolOccurrence>) -> (r: Vec<SymbolOccurrence>)
    ensures
        views(r@) == sorted_upto(views(v@), v@.len() as int),
{
    let ghost vv = views(v@);
    let mut out: Vec<SymbolOccurrence> = Vec::new();
    let mut k: usize = 0;
    while k < v.len()
        invariant
            k <= v@.len(),
            vv == views(v@),
            views(out@) == sorted_upto(vv, k as int),
        decreases v@.len() - k,
    {
        let x = copy_occurrence(&v[k]);
        assert(x@ == vv[k as int]);
        let ghost ov = views(out@);
        let mut j: usize = out.len();
        while j > 0 && occurrence_less(&x, &out[j - 1])
            invariant
                j <= out@.len(),
                ov == views(out@),
                insert_position(ov, x@, ov.len() as int) == insert_position(ov, x@, j as int),
            decreases j,
        {
            assert(ov[j - 1] == out@[j - 1]@);
            j = j - 1;
        }
        proof {
            if j > 0 {
                assert(ov[j - 1] == out@[j - 1]@);
            }
            assert(insert_position(ov, x@, j as int) == j);
        }
        out.insert(j, x);
        assert(views(out@) =~= ov.insert(j as int, x@));
        k = k + 1;
    }
    out
}

fn dedup_occurrences(v: Vec<SymbolOccurrence>) -> (r: Vec<SymbolOccurrence>)
    ensures
        views(r@) == dedup_upto(views(v@), v@.len() as int),
{
    let ghost vv = views(v@);
    let mut out: Vec<SymbolOccurrence> = Vec::new();
    let mut k: usize = 0;
    while k < v.len()
        invariant
            k <= v@.len(),
            vv == views(v@),
            views(out@) == dedup_upto(vv, k as int),
        decreases v@.len() - k,
    {
        assert(vv[k as int] == v@[k as int]@);
        let same = if out.len() > 0 {
            let last = &out[out.len() - 1];
            assert(views(out@).last() == last@);
            str_eq(last.uri.as_str(), v[k].uri.as_str()) && last.range == v[k].range
        } else {
            false
        };
        if !same {
            let x = copy_occurrence(&v[k]);
            proof {
                lemma_views_push(out@, x);
            }
            out.push(x);
        }
        k = k + 1;
    }
    out
}

fn same_target(a: &SymbolTarget, b: &SymbolTarget) -> (r: bool)
    ensures
        r == (a@ == b@),
{
    match (a, b) {
        (SymbolTarget::Model { uri: x }, SymbolTarget::Model { uri: y }) => str_eq(x.as_str(), y.as_str()),
        (
            SymbolTarget::Port { uri: u1, range: r1, direction: d1, name: n1 },
            SymbolTarget::Port { uri: u2, range: r2, direction: d2, name: n2 },
        ) => str_eq(u1.as_str(), u2.as_str()) && *r1 == *r2 && *d1 == *d2 && str_eq(n1.as_str(), n2.as_str()),
        _ => false,
    }
}

impl ProjectSymbolIndex {
    fn model_reference_occurrences(&self, target_uri: &str, occurrences: &mut Vec<SymbolOccurrence>)
        ensures
            views(final(occurrences)@) == views(old(occurrences)@) + model_occurrences_upto(
                self@,
                target_uri@,
                self@.len() as int,
            ),
    {
        let ghost dv = self@;
        let ghost base = views(occurrences@);
        let mut i: usize = 0;
        assert(base + model_occurrences_upto(dv, target_uri@, 0) =~= base);
        while i < self.documents.len()
            invariant
                i <= self.documents@.len(),
                dv == views(self.documents@),
                dv == self@,
                views(occurrences@) == base + model_occurrences_upto(dv, target_uri@, i as int),
            decreases self.documents@.len() - i,
        {
            let document = &self.documents[i].symbols;
            assert(dv[i as int] == self.documents@[i as int]@);
            let ghost d = document@;
            let ghost before = views(occurrences@);
            let ghost rv = d.model_references;
            let mut j: usize = 0;
            assert(before + model_occurrences_in(dv, target_uri@, d, 0) =~= before);
            while j < document.model_references.len()
                invariant
                    j <= document.model_references@.len(),
                    d == document@,
                    rv == d.model_references,
                    rv == views(document.model_references@),
                    dv == self@,
                    views(occurrences@) == before + model_occurrences_in(dv, target_uri@, d, j as int),
                decreases document.model_references@.len() - j,
            {
                let reference = &document.model_references[j];
                assert(rv[j as int] == reference@);
                match self.model_document(reference.name.as_str()) {
                    Some(t) => {
                        assert(dv[t as int] == self.documents@[t as int]@);
                        if str_eq(self.documents[t].symbols.uri.as_str(), target_uri) {
                            let o = SymbolOccurrence {
                                uri: document.uri.clone(),
                                range: reference.name_range,
                                kind: OccurrenceKind::Text,
                            };
                            proof {
                                lemma_views_push(occurrences@, o);
                            }
                            occurrences.push(o);
                        }
                    },
                    None => {},
                }
                proof {
                    assert(before + model_occurrences_in(dv, target_uri@, d, j + 1) =~= views(occurrences@)) by {
                        let q = model_occurrences_in(dv, target_uri@, d, j as int);
                        assert((before + q).len() == before.len() + q.len());
                    }
                }
                j = j + 1;
            }
            proof {
                assert(model_occurrences_upto(dv, target_uri@, i + 1) == model_occurrences_upto(dv, target_uri@, i as int)
                    + model_occurrences_in(dv, target_uri@, d, rv.len() as int));
                assert(views(occurrences@) =~= base + model_occurrences_upto(dv, target_uri@, i + 1));
            }
            i = i + 1;
        }
    }

    fn instance_scoped_port_occurrences(&self, target: &SymbolTarget, occurrences: &mut Vec<SymbolOccurrence>)
        ensures
            views(final(occurrences)@) == views(old(occurrences)@) + port_occurrences_upto(
                self@,
                target@,
                self@.len() as int,
            ),
    {
        let ghost dv = self@;
        let ghost base = views(occurrences@);
        let mut i: usize = 0;
        assert(base + port_occurrences_upto(dv, target@, 0) =~= base);
        while i < self.documents.len()
            invariant
                i <= self.documents@.len(),
                dv == views(self.documents@),
                dv == self@,
                views(occurrences@) == base + port_occurrences_upto(dv, target@, i as int),
            decreases self.documents@.len() - i,
        {
            let document = &self.documents[i].symbols;
            assert(dv[i as int] == self.documents@[i as int]@);
            let ghost d = document@;
            let references = document.instance_scoped_references();
            let ghost refs = views(references@);
            let ghost before = views(occurrences@);
            let mut j: usize = 0;
            assert(before + port_occurrences_in(dv, target@, d, refs, 0) =~= before);
            while j < references.len()
                invariant
                    j <= references@.len(),
                    d == document@,
                    refs == views(references@),
                    dv == self@,
                    views(occurrences@) == before + port_occurrences_in(dv, target@, d, refs, j as int),
                decreases references@.len() - j,
            {
                let reference = &references[j];
                assert(refs[j as int] == reference@);
                match self.resolve_instance_scoped_reference(document, reference) {
                    Some((t, port)) => {
                        assert(dv[t as int] == self.documents@[t as int]@);
                        let candidate = SymbolTarget::Port {
                            uri: self.documents[t].symbols.uri.clone(),
                            range: port.name_range,
                            direction: reference.direction,
                            name: port.name.clone(),
                        };
                        if same_target(&candidate, target) {
                            let o = SymbolOccurrence {
                                uri: document.uri.clone(),
                                range: reference.port_range,
                                kind: OccurrenceKind::Read,
                            };
                            proof {
                                lemma_views_push(occurrences@, o);
                            }
                            occurrences.push(o);
                        }
                    },
                    None => {},
                }
                proof {
                    assert(before + port_occurrences_in(dv, target@, d, refs, j + 1) =~= views(occurrences@));
                }
                j = j + 1;
            }
            proof {
                assert(views(occurrences@) =~= base + port_occurrences_upto(dv, target@, i + 1));
            }
            i = i + 1;
        }
    }

    /// The occurrences of a symbol across the project, sorted by URI and
    /// range, each place once; its definition among them when asked for.
    pub fn references_for_symbol(&self, symbol: &ResolvedSymbol, include_declaration: bool) -> (r: Vec<
        SymbolOccurrence,
    >)
        ensures
            views(r@) == references_spec(self@, symbol@.target, include_declaration),
    {
        let mut occurrences: Vec<SymbolOccurrence> = Vec::new();
        if include_declaration {
            match self.definition_for_target(&symbol.target) {
                Some(definition) => {
                    let o = SymbolOccurrence { uri: definition.uri, range: definition.range, kind: OccurrenceKind::Write };
                    occurrences.push(o);
                },
                None => {},
            }
        }
        let ghost declaration = views(occurrences@);
        assert(declaration =~= (if include_declaration {
            match definition_spec(self@, symbol@.target) {
                Some(def) => seq![SymbolOccurrenceView { uri: def.uri, range: def.range, kind: OccurrenceKind::Write }],
                None => Seq::empty(),
            }
        } else {
            Seq::empty()
        }));
        match &symbol.target {
            SymbolTarget::Model { uri } => self.model_reference_occurrences(uri.as_str(), &mut occurrences),
            SymbolTarget::Port { .. } => self.instance_scoped_port_occurrences(&symbol.target, &mut occurrences),
        }
        assert(views(occurrences@) == raw_references_spec(self@, symbol@.target, include_declaration));
        let sorted = sort_occurrences(&occurrences);
        dedup_occurrences(sorted)
    }

    /// The occurrences of the symbol at an offset across the project.
    pub fn references_at(&self, uri: &str, offset: usize, include_declaration: bool) -> (r: Option<
        Vec<SymbolOccurrence>,
    >)
        ensures
            match symbol_at_spec(self@, uri@, offset as int) {
                Some(symbol) => r matches Some(v) && views(v@) == references_spec(
                    self@,
                    symbol.target,
                    include_declaration,
                ),
                None => r is None,
            },
    {
        match self.symbol_at(uri, offset) {
            Some(symbol) => Some(self.references_for_symbol(&symbol, include_declaration)),
            None => None,
        }
    }

    /// The occurrences, definition included, of the symbol at an offset
    /// that lie in the same document.
    pub fn document_occurrences_at(&self, uri: &str, offset: usize) -> (r: Option<Vec<SymbolOccurrence>>)
        ensures
            match symbol_at_spec(self@, uri@, offset as int) {
                Some(symbol) => r matches Some(v) && views(v@) == references_spec(self@, symbol.target, true).filter(
                    |o: SymbolOccurrenceView| o.uri == uri@,
                ),
                None => r is None,
            },
    {
        let symbol = match self.symbol_at(uri, offset) {
            Some(s) => s,
            None => return None,
        };
        let all = self.references_for_symbol(&symbol, true);
        let ghost av = views(all@);
        let mut kept: Vec<SymbolOccurrence> = Vec::new();
        let mut i: usize = 0;
        while i < all.len()
            invariant
                i <= all@.len(),
                av == views(all@),
                views(kept@) == av.take(i as int).filter(|o: SymbolOccurrenceView| o.uri == uri@),
            decreases all@.len() - i,
        {
            assert(av[i as int] == all@[i as int]@);
            proof {
                assert(av.take(i + 1).drop_last() =~= av.take(i as int));
                av.take(i as int).lemma_filter_push(av[i as int], |o: SymbolOccurrenceView| o.uri == uri@);
                assert(av.take(i + 1) =~= av.take(i as int).push(av[i as int]));
            }
            if str_eq(all[i].uri.as_str(), uri) {
                let o = copy_occurrence(&all[i]);
                proof {
                    lemma_views_push(kept@, o);
                }
                kept.push(o);
            }
            i = i + 1;
        }
        assert(av.take(all@.len() as int) =~= av);
        Some(kept)
    }
}

// ---------------------------------------------------------------------------
// Names for completion, and documents to refresh
// ---------------------------------------------------------------------------

/// First position at or after `i` whose name is not below `x`.
pub open spec fn first_not_below(p: Seq<Seq<char>>, x: Seq<char>, i: int) -> int
    decreases p.len() - i,
{
    if i < 0 || i >= p.len() {
        p.len() as int
    } else if crate::units::seq_lt(p[i], x) {
        first_not_below(p, x, i + 1)
    } else {
        i
    }
}

/// A name put in its place among sorted names, unless it is there.
pub open spec fn insert_unique(p: Seq<Seq<char>>, x: Seq<char>) -> Seq<Seq<char>> {
    let i = first_not_below(p, x, 0);
    if i < p.len() && p[i] == x {
        p
    } else {
        p.insert(i, x)
    }
}

/// Names in strictly increasing order.
pub open spec fn strictly_sorted(p: Seq<Seq<char>>) -> bool {
    forall|i: int, j: int| 0 <= i < j < p.len() ==> crate::units::seq_lt(#[trigger] p[i], #[trigger] p[j])
}

pub proof fn lemma_first_not_below(p: Seq<Seq<char>>, x: Seq<char>, i: int)
    requires
        0 <= i <= p.len(),
    ensures
        i <= first_not_below(p, x, i) <= p.len(),
        forall|k: int| i <= k < first_not_below(p, x, i) ==> crate::units::seq_lt(#[trigger] p[k], x),
        first_not_below(p, x, i) < p.len() ==> !crate::units::seq_lt(p[first_not_below(p, x, i)], x),
    decreases p.len() - i,
{
    if i < p.len() && crate::units::seq_lt(p[i], x) {
        lemma_first_not_below(p, x, i + 1);
    }
}

/// Putting a name in its place keeps names in strict order, and adds
/// exactly that name.
pub proof fn lemma_insert_unique(p: Seq<Seq<char>>, x: Seq<char>)
    requires
        strictly_sorted(p),
    ensures
        strictly_sorted(insert_unique(p, x)),
        forall|y: Seq<char>| #[trigger] insert_unique(p, x).contains(y) <==> (p.contains(y) || y == x),
{
    let i = first_not_below(p, x, 0);
    lemma_first_not_below(p, x, 0);
    if i < p.len() && p[i] == x {
        assert forall|y: Seq<char>| #[trigger] insert_unique(p, x).contains(y) <==> (p.contains(y) || y == x) by {
            if y == x {
                assert(p[i] == y);
            }
        }
    } else {
        let q = p.insert(i, x);
        assert(q.len() == p.len() + 1);
        if i < p.len() {
            crate::units::lemma_seq_lt_total(p[i], x);
        }
        assert forall|a: int, b: int| 0 <= a < b < q.len() implies crate::units::seq_lt(#[trigger] q[a], #[trigger] q[b]) by {
            if b < i {
                assert(q[a] == p[a] && q[b] == p[b]);
            } else if b == i {
                assert(q[a] == p[a] && q[b] == x);
            } else if a < i {
                assert(q[a] == p[a] && q[b] == p[b - 1]);
                if b - 1 == i {
                    crate::units::lemma_seq_lt_transitive(p[a], x, p[b - 1]);
                } else {
                    assert(crate::units::seq_lt(p[i], p[b - 1]));
                    crate::units::lemma_seq_lt_transitive(x, p[i], p[b - 1]);
                    crate::units::lemma_seq_lt_transitive(p[a], x, p[b - 1]);
                }
            } else if a == i {
                assert(q[a] == x && q[b] == p[b - 1]);
                if b - 1 > i {
                    assert(crate::units::seq_lt(p[i], p[b - 1]));
                    crate::units::lemma_seq_lt_transitive(x, p[i], p[b - 1]);
                }
            } else {
                assert(q[a] == p[a - 1] && q[b] == p[b - 1]);
            }
        }
        assert forall|y: Seq<char>| #[trigger] q.contains(y) <==> (p.contains(y) || y == x) by {
            if q.contains(y) {
                let k = choose|k: int| 0 <= k < q.len() && #[trigger] q[k] == y;
                if k < i {
                    assert(p[k] == y);
                } else if k > i {
                    assert(p[k - 1] == y);
                }
            }
            if p.contains(y) {
                let k = choose|k: int| 0 <= k < p.len() && #[trigger] p[k] == y;
                if k < i {
                    assert(q[k] == y);
                } else {
                    assert(q[k + 1] == y);
                }
            }
            if y == x {
                assert(q[i] == y);
            }
        }
    }
}

/// The completion names come in strict order, each once, and they are
/// exactly the names given.
pub proof fn sorted_names_are_ordered_and_complete(s: Seq<Seq<char>>)
    ensures
        strictly_sorted(sorted_names(s)),
        forall|y: Seq<char>| #[trigger] sorted_names(s).contains(y) <==> s.contains(y),
{
    lemma_sorted_names_upto(s, s.len() as int);
    assert(s.take(s.len() as int) =~= s);
}

proof fn lemma_sorted_names_upto(s: Seq<Seq<char>>, k: int)
    requires
        0 <= k <= s.len(),
    ensures
        strictly_sorted(sorted_names_upto(s, k)),
        forall|y: Seq<char>| #[trigger] sorted_names_upto(s, k).contains(y) <==> s.take(k).contains(y),
    decreases k,
{
    if k > 0 {
        lemma_sorted_names_upto(s, k - 1);
        lemma_insert_unique(sorted_names_upto(s, k - 1), s[k - 1]);
        assert(s.take(k) =~= s.take(k - 1).push(s[k - 1]));
        assert forall|y: Seq<char>| #[trigger] sorted_names_upto(s, k).contains(y) <==> s.take(k).contains(y) by {
            if s.take(k - 1).contains(y) {
                let j = choose|j: int| 0 <= j < k - 1 && #[trigger] s.take(k - 1)[j] == y;
                assert(s.take(k)[j] == y);
            }
            if s.take(k).contains(y) {
                let j = choose|j: int| 0 <= j < k && #[trigger] s.take(k)[j] == y;
                if j < k - 1 {
                    assert(s.take(k - 1)[j] == y);
                }
            }
            if y == s[k - 1] {
                assert(s.take(k)[k - 1] == y);
            }
        }
    } else {
        assert(s.take(0) =~= Seq::<Seq<char>>::empty());
    }
}

/// The first `k` names, sorted, each once.
pub open spec fn sorted_names_upto(s: Seq<Seq<char>>, k: int) -> Seq<Seq<char>>
    decreases k,
{
    if k <= 0 {
        Seq::empty()
    } else {
        insert_unique(sorted_names_upto(s, k - 1), s[k - 1])
    }
}

pub open spec fn sorted_names(s: Seq<Seq<char>>) -> Seq<Seq<char>> {
    sorted_names_upto(s, s.len() as int)
}

fn insert_name(names: &mut Vec<String>, x: String)
    ensures
        crate::split::strings_view(final(names)@) == insert_unique(crate::split::strings_view(old(names)@), x@),
{
    let ghost nv = crate::split::strings_view(names@);
    let xc = crate::text::chars_of(x.as_str());
    let mut i: usize = 0;
    while i < names.len()
        invariant
            i <= names@.len(),
            nv.len() == names@.len(),
            nv == crate::split::strings_view(names@),
            xc@ == x@,
            first_not_below(nv, x@, 0) == first_not_below(nv, x@, i as int),
        ensures
            i <= names@.len(),
            first_not_below(nv, x@, 0) == first_not_below(nv, x@, i as int),
            i < names@.len() ==> !crate::units::seq_lt(nv[i as int], x@),
        decreases names@.len() - i,
    {
        let nc = crate::text::chars_of(names[i].as_str());
        assert(nv[i as int] == names@[i as int]@);
        if !crate::units::key_lt(nc.as_slice(), xc.as_slice()) {
            break;
        }
        i = i + 1;
    }
    proof {
        if i < names@.len() {
            assert(nv[i as int] == names@[i as int]@);
        }
    }
    assert(first_not_below(nv, x@, 0) == i);
    if i < names.len() && str_eq(names[i].as_str(), x.as_str()) {
        assert(nv[i as int] == names@[i as int]@);
        return ;
    }
    names.insert(i, x);
    assert(crate::split::strings_view(names@) =~= nv.insert(i as int, x@));
}

/// The names sorted, each once.
pub fn sort_names(v: Vec<String>) -> (r: Vec<String>)
    ensures
        crate::split::strings_view(r@) == sorted_names(crate::split::strings_view(v@)),
{
    let ghost vv = crate::split::strings_view(v@);
    let mut out: Vec<String> = Vec::new();
    assert(crate::split::strings_view(out@) =~= Seq::<Seq<char>>::empty());
    let mut k: usize = 0;
    while k < v.len()
        invariant
            k <= v@.len(),
            vv == crate::split::strings_view(v@),
            crate::split::strings_view(out@) == sorted_names_upto(vv, k as int),
        decreases v@.len() - k,
    {
        assert(vv[k as int] == v@[k as int]@);
        insert_name(&mut out, v[k].clone());
        k = k + 1;
    }
    out
}

/// The model names of the documents: the stems of their files.
pub open spec fn stems_upto(docs: Seq<IndexedDocumentView>, k: int) -> Seq<Seq<char>>
    decreases k,
{
    if k <= 0 {
        Seq::empty()
    } else {
        match docs[k - 1].file.stem {
            Some(s) => stems_upto(docs, k - 1).push(s),
            None => stems_upto(docs, k - 1),
        }
    }
}

/// First port at or after `i` with this name.
pub open spec fn port_name_index(p: Seq<PortSymbolView>, name: Seq<char>, i: int) -> Option<int>
    decreases p.len() - i,
{
    if i < 0 || i >= p.len() {
        None
    } else if p[i].name == name {
        Some(i)
    } else {
        port_name_index(p, name, i + 1)
    }
}

/// The first `k` ports sorted by name, the first port of each name kept.
pub open spec fn sorted_ports_upto(s: Seq<PortSymbolView>, k: int) -> Seq<PortSymbolView>
    decreases k,
{
    if k <= 0 {
        Seq::empty()
    } else {
        let p = sorted_ports_upto(s, k - 1);
        let names = p.map_values(|q: PortSymbolView| q.name);
        let i = first_not_below(names, s[k - 1].name, 0);
        if i < p.len() && p[i].name == s[k - 1].name {
            p
        } else {
            p.insert(i, s[k - 1])
        }
    }
}

/// The ports that completion offers for an instance: those of its model's
/// document on that side, sorted by name, each name once.
pub open spec fn instance_port_completions_spec(
    docs: Seq<IndexedDocumentView>,
    uri: Seq<char>,
    instance_name: Seq<char>,
    direction: PortDirection,
) -> Seq<PortSymbolView> {
    match document_spec(docs, uri) {
        None => Seq::empty(),
        Some(d) => match instance_with_name(d.instances, instance_name, 0) {
            None => Seq::empty(),
            Some(i) => match d.instances[i].model {
                None => Seq::empty(),
                Some(m) => match model_document_spec(docs, m.name) {
                    None => Seq::empty(),
                    Some(t) => {
                        let ports = crate::lookup::ports_of(docs[t].symbols, direction);
                        sorted_ports_upto(ports, ports.len() as int)
                    },
                },
            },
        },
    }
}

fn copy_port(p: &PortSymbol) -> (r: PortSymbol)
    ensures
        r@ == p@,
{
    PortSymbol {
        name: p.name.clone(),
        name_range: p.name_range,
        unit: match &p.unit {
            Some(u) => Some(crate::symbols::SymbolText { text: u.text.clone(), range: u.range }),
            None => None,
        },
        poset: match &p.poset {
            Some(q) => Some(crate::poset::copy_poset(q)),
            None => None,
        },
        declaration_range: p.declaration_range,
    }
}

fn sort_ports(v: &Vec<PortSymbol>) -> (r: Vec<PortSymbol>)
    ensures
        views(r@) == sorted_ports_upto(views(v@), v@.len() as int),
{
    let ghost vv = views(v@);
    let mut out: Vec<PortSymbol> = Vec::new();
    let mut k: usize = 0;
    while k < v.len()
        invariant
            k <= v@.len(),
            vv == views(v@),
            views(out@) == sorted_ports_upto(vv, k as int),
        decreases v@.len() - k,
    {
        let x = &v[k];
        assert(vv[k as int] == x@);
        let ghost ov = views(out@);
        let ghost names = ov.map_values(|q: PortSymbolView| q.name);
        let xc = crate::text::chars_of(x.name.as_str());
        let mut i: usize = 0;
        while i < out.len()
            invariant
                i <= out@.len(),
                ov == views(out@),
                names.len() == out@.len(),
                names == ov.map_values(|q: PortSymbolView| q.name),
                xc@ == x@.name,
                first_not_below(names, x@.name, 0) == first_not_below(names, x@.name, i as int),
            ensures
                i <= out@.len(),
                first_not_below(names, x@.name, 0) == first_not_below(names, x@.name, i as int),
                i < out@.len() ==> !crate::units::seq_lt(names[i as int], x@.name),
            decreases out@.len() - i,
        {
            assert(names[i as int] == out@[i as int]@.name);
            let nc = crate::text::chars_of(out[i].name.as_str());
            if !crate::units::key_lt(nc.as_slice(), xc.as_slice()) {
                break;
            }
            i = i + 1;
        }
        proof {
            if i < out@.len() {
                assert(names[i as int] == out@[i as int]@.name);
            }
        }
        assert(first_not_below(names, x@.name, 0) == i);
        if i < out.len() && str_eq(out[i].name.as_str(), x.name.as_str()) {
            assert(ov[i as int] == out@[i as int]@);
        } else {
            let c = copy_port(x);
            out.insert(i, c);
            assert(views(out@) =~= ov.insert(i as int, x@));
        }
        k = k + 1;
    }
    out
}

/// Whether a document uses a model, or a poset in its declared units.
pub open spec fn depends_on_spec(
    docs: Seq<IndexedDocumentView>,
    uri: Seq<char>,
    changed_model: Option<Seq<char>>,
    changed_poset: Option<Seq<char>>,
) -> bool {
    match document_spec(docs, uri) {
        None => false,
        Some(d) => {
            let by_model = match changed_model {
                Some(m) => exists|j: int| 0 <= j < d.model_references.len() && #[trigger] d.model_references[j].name == m,
                None => false,
            };
            if by_model {
                true
            } else {
                match changed_poset {
                    Some(p) => exists|u: int, a: int|
                        0 <= u < d.declared_units.len() && 0 <= a < crate::symbols::unit_atoms_spec(
                            d.declared_units[u].name,
                        ).len() && #[trigger] crate::symbols::unit_atoms_spec(d.declared_units[u].name)[a].0 == p,
                    None => false,
                }
            }
        },
    }
}

/// Whether an open document needs its diagnostics again after a change.
pub open spec fn needs_refresh(
    docs: Seq<IndexedDocumentView>,
    changed_uri: Seq<char>,
    changed: DocumentFileView,
    u: Seq<char>,
) -> bool {
    let changed_poset = if changed.extension == Some("mcdp_poset"@) {
        changed.stem
    } else {
        None
    };
    u == changed_uri || depends_on_spec(docs, u, changed.stem, changed_poset)
}

pub open spec fn refresh_filter(docs: Seq<IndexedDocumentView>, changed_uri: Seq<char>, changed: DocumentFileView) -> spec_fn(
    Seq<char>,
) -> bool {
    |u: Seq<char>| needs_refresh(docs, changed_uri, changed, u)
}

/// The open documents whose diagnostics a change may alter: the changed one,
/// those referring to its model, and those using it as a unit when it is a
/// poset; sorted, each once.
pub open spec fn refresh_uris_spec(
    docs: Seq<IndexedDocumentView>,
    changed_uri: Seq<char>,
    changed: DocumentFileView,
    open_uris: Seq<Seq<char>>,
) -> Seq<Seq<char>> {
    sorted_names(open_uris.filter(refresh_filter(docs, changed_uri, changed)))
}

impl ProjectSymbolIndex {
    /// The model names of the project, sorted, each once.
    pub fn model_completion_names(&self) -> (r: Vec<String>)
        ensures
            crate::split::strings_view(r@) == sorted_names(stems_upto(self@, self@.len() as int)),
    {
        let ghost dv = self@;
        let mut stems: Vec<String> = Vec::new();
        assert(crate::split::strings_view(stems@) =~= Seq::<Seq<char>>::empty());
        let mut i: usize = 0;
        while i < self.documents.len()
            invariant
                i <= self.documents@.len(),
                dv == views(self.documents@),
                crate::split::strings_view(stems@) == stems_upto(dv, i as int),
            decreases self.documents@.len() - i,
        {
            assert(dv[i as int] == self.documents@[i as int]@);
            match &self.documents[i].file.stem {
                Some(stem) => {
                    let c = stem.clone();
                    assert(crate::split::strings_view(stems@.push(c)) =~= crate::split::strings_view(stems@).push(c@));
                    stems.push(c);
                },
                None => {},
            }
            i = i + 1;
        }
        sort_names(stems)
    }

    /// The instance names of a document, sorted, each once.
    pub fn instance_completion_names(&self, uri: &str) -> (r: Vec<String>)
        ensures
            crate::split::strings_view(r@) == match document_spec(self@, uri@) {
                Some(d) => sorted_names(d.instances.map_values(|b: InstanceBindingView| b.name)),
                None => Seq::empty(),
            },
    {
        let document = match self.document(uri) {
            Some(d) => d,
            None => {
                let r: Vec<String> = Vec::new();
                assert(crate::split::strings_view(r@) =~= Seq::<Seq<char>>::empty());
                return r;
            },
        };
        let ghost names = document@.instances.map_values(|b: InstanceBindingView| b.name);
        let mut v: Vec<String> = Vec::new();
        let mut i: usize = 0;
        while i < document.instances.len()
            invariant
                i <= document.instances@.len(),
                names == document@.instances.map_values(|b: InstanceBindingView| b.name),
                document@.instances == views(document.instances@),
                crate::split::strings_view(v@) == names.take(i as int),
            decreases document.instances@.len() - i,
        {
            assert(document@.instances[i as int] == document.instances@[i as int]@);
            assert(names[i as int] == document.instances@[i as int]@.name);
            let c = document.instances[i].name.clone();
            assert(c@ == names[i as int]);
            assert(crate::split::strings_view(v@.push(c)) =~= crate::split::strings_view(v@).push(c@));
            assert(names.take(i + 1) =~= names.take(i as int).push(names[i as int]));
            v.push(c);
            i = i + 1;
        }
        assert(names.take(names.len() as int) =~= names);
        sort_names(v)
    }

    /// The ports that completion offers for an instance of a document.
    pub fn instance_port_completions(&self, uri: &str, instance_name: &str, direction: PortDirection) -> (r: Vec<
        PortSymbol,
    >)
        ensures
            views(r@) == instance_port_completions_spec(self@, uri@, instance_name@, direction),
    {
        let empty: Vec<PortSymbol> = Vec::new();
        assert(views(empty@) =~= Seq::<PortSymbolView>::empty());
        let document = match self.document(uri) {
            Some(d) => d,
            None => return empty,
        };
        let instance = match instance_named(document, instance_name) {
            Some(b) => b,
            None => return empty,
        };
        let model = match &instance.model {
            Some(m) => m,
            None => return empty,
        };
        let t = match self.model_document(model.name.as_str()) {
            Some(t) => t,
            None => return empty,
        };
        assert(self@[t as int] == self.documents@[t as int]@);
        let target = &self.documents[t].symbols;
        match direction {
            PortDirection::Provided => sort_ports(&target.provides),
            PortDirection::Required => sort_ports(&target.requires),
        }
    }

    /// Whether the document with this URI uses a model, or a poset in its
    /// declared units.
    pub fn document_depends_on(&self, uri: &str, changed_model: Option<&str>, changed_poset: Option<&str>) -> (r: bool)
        ensures
            r == depends_on_spec(
                self@,
                uri@,
                crate::units::opt_str_view(changed_model),
                crate::units::opt_str_view(changed_poset),
            ),
    {
        let document = match self.document(uri) {
            Some(d) => d,
            None => return false,
        };
        let ghost d = document@;
        if let Some(m) = changed_model {
            let mut j: usize = 0;
            while j < document.model_references.len()
                invariant
                    j <= document.model_references@.len(),
                    d == document@,
                    document_spec(self@, uri@) == Some(d),
                    crate::units::opt_str_view(changed_model) == Some(m@),
                    d.model_references == views(document.model_references@),
                    forall|k: int| 0 <= k < j ==> d.model_references[k].name != m@,
                decreases document.model_references@.len() - j,
            {
                assert(d.model_references[j as int] == document.model_references@[j as int]@);
                if str_eq(document.model_references[j].name.as_str(), m) {
                    assert(d.model_references[j as int].name == m@);
                    return true;
                }
                j = j + 1;
            }
        }
        match changed_poset {
            Some(p) => {
                let mut u: usize = 0;
                while u < document.declared_units.len()
                    invariant
                        u <= document.declared_units@.len(),
                        d == document@,
                        document_spec(self@, uri@) == Some(d),
                        crate::units::opt_str_view(changed_poset) == Some(p@),
                        match crate::units::opt_str_view(changed_model) {
                            Some(m) => forall|k: int| 0 <= k < d.model_references.len() ==> #[trigger] d.model_references[k].name != m,
                            None => true,
                        },
                        d.declared_units == views(document.declared_units@),
                        forall|x: int, a: int|
                            0 <= x < u && 0 <= a < crate::symbols::unit_atoms_spec(d.declared_units[x].name).len()
                                ==> #[trigger] crate::symbols::unit_atoms_spec(d.declared_units[x].name)[a].0 != p@,
                    decreases document.declared_units@.len() - u,
                {
                    assert(d.declared_units[u as int] == document.declared_units@[u as int]@);
                    let atoms = crate::symbols::unit_atoms(document.declared_units[u].name.as_str());
                    let ghost av = crate::symbols::atoms_view(atoms@);
                    let mut a: usize = 0;
                    while a < atoms.len()
                        invariant
                            a <= atoms@.len(),
                            u < document.declared_units@.len(),
                            d == document@,
                            document_spec(self@, uri@) == Some(d),
                            crate::units::opt_str_view(changed_poset) == Some(p@),
                            av == crate::symbols::atoms_view(atoms@),
                            av == crate::symbols::unit_atoms_spec(d.declared_units[u as int].name),
                            forall|k: int| 0 <= k < a ==> av[k].0 != p@,
                        decreases atoms@.len() - a,
                    {
                        assert(av[a as int].0 == atoms@[a as int].name@);
                        if str_eq(atoms[a].name.as_str(), p) {
                            assert(crate::symbols::unit_atoms_spec(d.declared_units[u as int].name)[a as int].0 == p@);
                            return true;
                        }
                        a = a + 1;
                    }
                    u = u + 1;
                }
                false
            },
            None => false,
        }
    }

    /// The open documents to refresh after a change, given the file the
    /// changed URI names.
    pub fn refresh_uris_for(&self, changed_uri: &str, changed: &DocumentFile, open_uris: &Vec<String>) -> (r: Vec<
        String,
    >)
        ensures
            crate::split::strings_view(r@) == refresh_uris_spec(
                self@,
                changed_uri@,
                changed@,
                crate::split::strings_view(open_uris@),
            ),
    {
        let is_poset = match &changed.extension {
            Some(e) => str_eq(e.as_str(), "mcdp_poset"),
            None => false,
        };
        let changed_model: Option<&str> = match &changed.stem {
            Some(s) => Some(s.as_str()),
            None => None,
        };
        let changed_poset: Option<&str> = if is_poset {
            changed_model
        } else {
            None
        };
        let ghost pred = refresh_filter(self@, changed_uri@, changed@);
        let ghost ov = crate::split::strings_view(open_uris@);
        let mut kept: Vec<String> = Vec::new();
        assert(crate::split::strings_view(kept@) =~= Seq::<Seq<char>>::empty());
        let mut i: usize = 0;
        while i < open_uris.len()
            invariant
                i <= open_uris@.len(),
                ov == crate::split::strings_view(open_uris@),
                crate::units::opt_str_view(changed_model) == changed@.stem,
                crate::units::opt_str_view(changed_poset) == (if changed@.extension == Some("mcdp_poset"@) {
                    changed@.stem
                } else {
                    None
                }),
                pred == refresh_filter(self@, changed_uri@, changed@),
                crate::split::strings_view(kept@) == ov.take(i as int).filter(pred),
            decreases open_uris@.len() - i,
        {
            assert(ov[i as int] == open_uris@[i as int]@);
            proof {
                assert(ov.take(i + 1) =~= ov.take(i as int).push(ov[i as int]));
                ov.take(i as int).lemma_filter_push(ov[i as int], pred);
            }
            let u = open_uris[i].as_str();
            if str_eq(u, changed_uri) || self.document_depends_on(u, changed_model, changed_poset) {
                let c = open_uris[i].clone();
                assert(crate::split::strings_view(kept@.push(c)) =~= crate::split::strings_view(kept@).push(c@));
                kept.push(c);
            }
            i = i + 1;
        }
        assert(ov.take(ov.len() as int) =~= ov);
        sort_names(kept)
    }

    /// The open documents to refresh after a change: what
    /// `refresh_uris_for` gives for the file that the changed URI names.
    pub fn diagnostic_refresh_uris(&self, changed_uri: &str, open_uris: &Vec<String>) -> (r: Vec<String>)
        ensures
            exists|file: DocumentFileView|
                crate::split::strings_view(r@) == refresh_uris_spec(
                    self@,
                    changed_uri@,
                    file,
                    crate::split::strings_view(open_uris@),
                ),
    {
        let changed = document_file(changed_uri);
        self.refresh_uris_for(changed_uri, &changed, open_uris)
    }
}

// ---------------------------------------------------------------------------
// Completion items that need the project
// ---------------------------------------------------------------------------

pub open spec fn symbol_direction(d: crate::graph::PortDirection) -> PortDirection {
    match d {
        crate::graph::PortDirection::Provides => PortDirection::Provided,
        crate::graph::PortDirection::Requires => PortDirection::Required,
    }
}

pub open spec fn unit_text_of(p: PortSymbolView) -> Option<Seq<char>> {
    match p.unit {
        Some(u) => Some(u.text),
        None => None,
    }
}

/// The items for ports of an instance.
pub open spec fn port_items_spec(
    ports: Seq<PortSymbolView>,
    d: crate::graph::PortDirection,
    instance: Seq<char>,
    mode: crate::completion::InstancePortInsertMode,
    replace: crate::line_index::LspRange,
) -> Seq<crate::completion::EntryView> {
    ports.map_values(
        |p: PortSymbolView| crate::completion::port_item_spec(p.name, unit_text_of(p), d, instance, mode, replace),
    )
}

/// The whole expressions for the ports of the first `k` instances: their
/// required ports, then their provided ports.
pub open spec fn scoped_items_upto(
    docs: Seq<IndexedDocumentView>,
    uri: Seq<char>,
    names: Seq<Seq<char>>,
    replace: crate::line_index::LspRange,
    k: int,
) -> Seq<crate::completion::EntryView>
    decreases k,
{
    if k <= 0 {
        Seq::empty()
    } else {
        let name = names[k - 1];
        scoped_items_upto(docs, uri, names, replace, k - 1) + port_items_spec(
            instance_port_completions_spec(docs, uri, name, PortDirection::Required),
            crate::graph::PortDirection::Requires,
            name,
            crate::completion::InstancePortInsertMode::FullExpression,
            replace,
        ) + port_items_spec(
            instance_port_completions_spec(docs, uri, name, PortDirection::Provided),
            crate::graph::PortDirection::Provides,
            name,
            crate::completion::InstancePortInsertMode::FullExpression,
            replace,
        )
    }
}

pub open spec fn plain_items_spec(names: Seq<Seq<char>>, kind: crate::completion::ItemKind, detail: Seq<char>) -> Seq<
    crate::completion::EntryView,
> {
    names.map_values(|n: Seq<char>| crate::completion::plain_view(n, kind, detail, n))
}

/// The completion items of a request: the snippets it holds, or what the
/// project offers for its context; resource paths and the model files of
/// the directory are given, as the file system holds them.
pub open spec fn completion_items_spec(
    index: Option<Seq<IndexedDocumentView>>,
    uri: Seq<char>,
    request: crate::completion::CompletionRequest,
    directory_models: Seq<Seq<char>>,
    resource_paths: Seq<Seq<char>>,
) -> Seq<crate::completion::EntryView> {
    match request.context {
        crate::completion::CompletionContext::ResourcePath => plain_items_spec(
            resource_paths,
            crate::completion::ItemKind::File,
            "Resource path"@,
        ),
        crate::completion::CompletionContext::InstancePort(c) => match index {
            Some(docs) => port_items_spec(
                instance_port_completions_spec(docs, uri, c.instance_name@, symbol_direction(c.direction)),
                c.direction,
                c.instance_name@,
                c.insert_mode,
                request.replace_range,
            ),
            None => Seq::empty(),
        },
        crate::completion::CompletionContext::InstanceName => match index {
            Some(docs) => plain_items_spec(
                match document_spec(docs, uri) {
                    Some(d) => sorted_names(d.instances.map_values(|b: InstanceBindingView| b.name)),
                    None => Seq::empty(),
                },
                crate::completion::ItemKind::Variable,
                "Local MCDPL instance"@,
            ),
            None => Seq::empty(),
        },
        crate::completion::CompletionContext::ModelReference => {
            let names = match index {
                Some(docs) => {
                    let n = sorted_names(stems_upto(docs, docs.len() as int));
                    if n.len() > 0 {
                        n
                    } else {
                        directory_models
                    }
                },
                None => directory_models,
            };
            plain_items_spec(names, crate::completion::ItemKind::Reference, "MCDPL model reference"@)
        },
        crate::completion::CompletionContext::InstanceScopedExpression => match index {
            Some(docs) => {
                let names = match document_spec(docs, uri) {
                    Some(d) => sorted_names(d.instances.map_values(|b: InstanceBindingView| b.name)),
                    None => Seq::empty(),
                };
                scoped_items_upto(docs, uri, names, request.replace_range, names.len() as int)
            },
            None => Seq::empty(),
        },
        _ => crate::completion::entries_view(request.items@),
    }
}

fn push_port_items(
    out: &mut Vec<crate::completion::CompletionEntry>,
    ports: &Vec<PortSymbol>,
    d: crate::graph::PortDirection,
    instance: &str,
    mode: crate::completion::InstancePortInsertMode,
    replace: crate::line_index::LspRange,
)
    ensures
        crate::completion::entries_view(final(out)@) == crate::completion::entries_view(old(out)@) + port_items_spec(
            views(ports@),
            d,
            instance@,
            mode,
            replace,
        ),
{
    let ghost base = crate::completion::entries_view(out@);
    let ghost pv = views(ports@);
    let mut i: usize = 0;
    while i < ports.len()
        invariant
            i <= ports@.len(),
            pv == views(ports@),
            crate::completion::entries_view(out@) == base + port_items_spec(pv.take(i as int), d, instance@, mode, replace),
        decreases ports@.len() - i,
    {
        let p = &ports[i];
        assert(pv[i as int] == p@);
        let unit: Option<&str> = match &p.unit {
            Some(u) => Some(u.text.as_str()),
            None => None,
        };
        let e = crate::completion::port_item(p.name.as_str(), unit, d, instance, mode, replace);
        proof {
            assert(crate::completion::entries_view(out@.push(e)) =~= crate::completion::entries_view(out@).push(e@));
            assert(port_items_spec(pv.take(i + 1), d, instance@, mode, replace) =~= port_items_spec(
                pv.take(i as int),
                d,
                instance@,
                mode,
                replace,
            ).push(e@));
        }
        out.push(e);
        i = i + 1;
    }
    assert(pv.take(ports@.len() as int) =~= pv);
}

fn plain_items(
    names: &Vec<String>,
    kind: crate::completion::ItemKind,
    detail: &str,
) -> (r: Vec<crate::completion::CompletionEntry>)
    ensures
        crate::completion::entries_view(r@) == plain_items_spec(crate::split::strings_view(names@), kind, detail@),
{
    let ghost nv = crate::split::strings_view(names@);
    let mut out: Vec<crate::completion::CompletionEntry> = Vec::new();
    let mut i: usize = 0;
    while i < names.len()
        invariant
            i <= names@.len(),
            nv == crate::split::strings_view(names@),
            crate::completion::entries_view(out@) == plain_items_spec(nv.take(i as int), kind, detail@),
        decreases names@.len() - i,
    {
        assert(nv[i as int] == names@[i as int]@);
        let e = crate::completion::plain_item(names[i].as_str(), kind, detail, names[i].as_str());
        proof {
            assert(crate::completion::entries_view(out@.push(e)) =~= crate::completion::entries_view(out@).push(e@));
            assert(plain_items_spec(nv.take(i + 1), kind, detail@) =~= plain_items_spec(nv.take(i as int), kind, detail@).push(
                e@,
            ));
        }
        out.push(e);
        i = i + 1;
    }
    assert(nv.take(names@.len() as int) =~= nv);
    out
}

pub open spec fn opt_docs(index: Option<&ProjectSymbolIndex>) -> Option<Seq<IndexedDocumentView>> {
    match index {
        Some(i) => Some(i@),
        None => None,
    }
}

/// The completion items of a request: the snippets it holds, or what the
/// project offers for its context. The model files of the document's
/// directory and the resource paths are given by the caller, which reads
/// the file system.
pub fn completion_items(
    index: Option<&ProjectSymbolIndex>,
    uri: &str,
    request: &crate::completion::CompletionRequest,
    directory_models: &Vec<String>,
    resource_paths: &Vec<String>,
) -> (r: Vec<crate::completion::CompletionEntry>)
    ensures
        crate::completion::entries_view(r@) == completion_items_spec(
            opt_docs(index),
            uri@,
            *request,
            crate::split::strings_view(directory_models@),
            crate::split::strings_view(resource_paths@),
        ),
{
    let empty: Vec<crate::completion::CompletionEntry> = Vec::new();
    assert(crate::completion::entries_view(empty@) =~= Seq::<crate::completion::EntryView>::empty());
    match &request.context {
        crate::completion::CompletionContext::ResourcePath => plain_items(
            resource_paths,
            crate::completion::ItemKind::File,
            "Resource path",
        ),
        crate::completion::CompletionContext::InstancePort(c) => match index {
            Some(index) => {
                let direction = match c.direction {
                    crate::graph::PortDirection::Provides => PortDirection::Provided,
                    crate::graph::PortDirection::Requires => PortDirection::Required,
                };
                let ports = index.instance_port_completions(uri, c.instance_name.as_str(), direction);
                let mut out: Vec<crate::completion::CompletionEntry> = Vec::new();
                push_port_items(&mut out, &ports, c.direction, c.instance_name.as_str(), c.insert_mode, request.replace_range);
                assert(crate::completion::entries_view(out@) =~= port_items_spec(
                    views(ports@),
                    c.direction,
                    c.instance_name@,
                    c.insert_mode,
                    request.replace_range,
                ));
                out
            },
            None => empty,
        },
        crate::completion::CompletionContext::InstanceName => match index {
            Some(index) => {
                let names = index.instance_completion_names(uri);
                plain_items(&names, crate::completion::ItemKind::Variable, "Local MCDPL instance")
            },
            None => empty,
        },
        crate::completion::CompletionContext::ModelReference => {
            let names = match index {
                Some(index) => {
                    let n = index.model_completion_names();
                    if n.len() > 0 {
                        n
                    } else {
                        directory_models.clone()
                    }
                },
                None => directory_models.clone(),
            };
            plain_items(&names, crate::completion::ItemKind::Reference, "MCDPL model reference")
        },
        crate::completion::CompletionContext::InstanceScopedExpression => match index {
            Some(index) => {
                let names = index.instance_completion_names(uri);
                let ghost nv = crate::split::strings_view(names@);
                let mut out: Vec<crate::completion::CompletionEntry> = Vec::new();
                assert(crate::completion::entries_view(out@) =~= Seq::<crate::completion::EntryView>::empty());
                let mut i: usize = 0;
                while i < names.len()
                    invariant
                        i <= names@.len(),
                        nv == crate::split::strings_view(names@),
                        crate::completion::entries_view(out@) == scoped_items_upto(
                            index@,
                            uri@,
                            nv,
                            request.replace_range,
                            i as int,
                        ),
                    decreases names@.len() - i,
                {
                    assert(nv[i as int] == names@[i as int]@);
                    let name = names[i].as_str();
                    let required = index.instance_port_completions(uri, name, PortDirection::Required);
                    push_port_items(
                        &mut out,
                        &required,
                        crate::graph::PortDirection::Requires,
                        name,
                        crate::completion::InstancePortInsertMode::FullExpression,
                        request.replace_range,
                    );
                    let provided = index.instance_port_completions(uri, name, PortDirection::Provided);
                    push_port_items(
                        &mut out,
                        &provided,
                        crate::graph::PortDirection::Provides,
                        name,
                        crate::completion::InstancePortInsertMode::FullExpression,
                        request.replace_range,
                    );
                    i = i + 1;
                }
                out
            },
            None => empty,
        },
        _ => copy_entries(&request.items),
    }
}

fn copy_entries(v: &Vec<crate::completion::CompletionEntry>) -> (r: Vec<crate::completion::CompletionEntry>)
    ensures
        crate::completion::entries_view(r@) == crate::completion::entries_view(v@),
{
    let mut out: Vec<crate::completion::CompletionEntry> = Vec::new();
    let mut i: usize = 0;
    while i < v.len()
        invariant
            i <= v@.len(),
            crate::completion::entries_view(out@) == crate::completion::entries_view(v@).take(i as int),
        decreases v@.len() - i,
    {
        let e = &v[i];
        let c = crate::completion::CompletionEntry {
            label: e.label.clone(),
            kind: e.kind,
            detail: e.detail.clone(),
            insert_text: e.insert_text.clone(),
            snippet: e.snippet,
            filter_text: e.filter_text.clone(),
            sort_text: e.sort_text.clone(),
            edit: match &e.edit {
                Some((r, t)) => Some((*r, t.clone())),
                None => None,
            },
        };
        proof {
            assert(c@ == e@);
            assert(crate::completion::entries_view(out@.push(c)) =~= crate::completion::entries_view(out@).push(c@));
            assert(crate::completion::entries_view(v@).take(i + 1) =~= crate::completion::entries_view(v@).take(
                i as int,
            ).push(e@));
        }
        out.push(c);
        i = i + 1;
    }
    assert(crate::completion::entries_view(v@).take(v@.len() as int) =~= crate::completion::entries_view(v@));
    out
}

} // verus!
