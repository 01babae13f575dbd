//! The document syntax tree, the compiled contract, and compile errors.
use vstd::prelude::*;
use crate::chars::{
    decimal, lemma_lex_irreflexive, lemma_lex_total, lemma_lex_transitive, lex_lt, push_decimal,
    push_str_chars, str_eq, str_lt,
};

verus! {

/// Declares `serde_json::Number` to the verifier.  The library only carries
/// such values from the caller into the contract; nothing is claimed of them.
#[verifier::external_type_specification]
#[verifier::external_body]
pub struct ExNumber(serde_json::Number);

/// serde_json's `Clone` for `Number`, which it derives over a `Copy` enum.
/// Trusted: the contract claims that the clone is the same value.
pub assume_specification[ <serde_json::Number as Clone>::clone ](n: &serde_json::Number) -> (r:
    serde_json::Number)
    ensures
        r == *n,
;

/// A `section: <name>` header and the line it stands on.
#[derive(Debug, Clone, PartialEq, Eq)]
pub struct Section {
    pub name: String,
    pub line: usize,
}

/// A `key: value` line of the `meta` section.
#[derive(Debug, Clone, PartialEq, Eq)]
pub struct KeyValue {
    pub key: String,
    pub value: String,
    pub line: usize,
}

/// A `lhs = rhs` line of the `formula` section.
#[derive(Debug, Clone, PartialEq, Eq)]
pub struct Formula {
    pub lhs: String,
    pub rhs: String,
    pub line: usize,
}

/// A `field in [min, max]` line of the `invariant` section.
#[derive(Debug, Clone, PartialEq, Eq)]
pub struct Invariant {
    pub field: String,
    pub min: String,
    pub max: String,
    pub line: usize,
}

/// An `op <name>` line of the `pipeline` section.
#[derive(Debug, Clone, PartialEq, Eq)]
pub struct PipelineOp {
    pub name: String,
    pub line: usize,
}

/// Everything a document holds, in the order it was written.
#[derive(Debug, Clone, PartialEq, Eq)]
pub struct DocumentAst {
    pub sections: Vec<Section>,
    pub meta: Vec<KeyValue>,
    pub formulas: Vec<Formula>,
    pub invariants: Vec<Invariant>,
    pub pipeline: Vec<PipelineOp>,
}

pub struct SectionView {
    pub name: Seq<char>,
    pub line: nat,
}

pub struct KeyValueView {
    pub key: Seq<char>,
    pub value: Seq<char>,
    pub line: nat,
}

pub struct FormulaView {
    pub lhs: Seq<char>,
    pub rhs: Seq<char>,
    pub line: nat,
}

pub struct InvariantView {
    pub field: Seq<char>,
    pub min: Seq<char>,
    pub max: Seq<char>,
    pub line: nat,
}

pub struct PipelineOpView {
    pub name: Seq<char>,
    pub line: nat,
}

#[verifier::ext_equal]
pub struct DocumentView {
    pub sections: Seq<SectionView>,
    pub meta: Seq<KeyValueView>,
    pub formulas: Seq<FormulaView>,
    pub invariants: Seq<InvariantView>,
    pub pipeline: Seq<PipelineOpView>,
}

impl View for Section {
    type V = SectionView;

    open spec fn view(&self) -> SectionView {
        SectionView { name: self.name@, line: self.line as nat }
    }
}

impl View for KeyValue {
    type V = KeyValueView;

    open spec fn view(&self) -> KeyValueView {
        KeyValueView { key: self.key@, value: self.value@, line: self.line as nat }
    }
}

impl View for Formula {
    type V = FormulaView;

    open spec fn view(&self) -> FormulaView {
        FormulaView { lhs: self.lhs@, rhs: self.rhs@, line: self.line as nat }
    }
}

impl View for Invariant {
    type V = InvariantView;

    open spec fn view(&self) -> InvariantView {
        InvariantView {
            field: self.field@,
            min: self.min@,
            max: self.max@,
            line: self.line as nat,
        }
    }
}

impl View for PipelineOp {
    type V = PipelineOpView;

    open spec fn view(&self) -> PipelineOpView {
        PipelineOpView { name: self.name@, line: self.line as nat }
    }
}

impl View for DocumentAst {
    type V = DocumentView;

    open spec fn view(&self) -> DocumentView {
        DocumentView {
            sections: self.sections@.map_values(|s: Section| s@),
            meta: self.meta@.map_values(|k: KeyValue| k@),
            formulas: self.formulas@.map_values(|f: Formula| f@),
            invariants: self.invariants@.map_values(|i: Invariant| i@),
            pipeline: self.pipeline@.map_values(|p: PipelineOp| p@),
        }
    }
}

/// The document with nothing in it.
pub open spec fn empty_document() -> DocumentView {
    DocumentView {
        sections: Seq::empty(),
        meta: Seq::empty(),
        formulas: Seq::empty(),
        invariants: Seq::empty(),
        pipeline: Seq::empty(),
    }
}

impl Default for DocumentAst {
    fn default() -> (d: Self)
        ensures
            d@ == empty_document(),
    {
        let d = DocumentAst {
            sections: Vec::new(),
            meta: Vec::new(),
            formulas: Vec::new(),
            invariants: Vec::new(),
            pipeline: Vec::new(),
        };
        assert(d@ =~= empty_document());
        d
    }
}

/// A validated formula of the contract.
#[derive(Debug, Clone, PartialEq, Eq)]
pub struct ContractFormula {
    pub lhs: String,
    pub rhs: String,
}

/// A validated invariant of the contract with its two bounds.
#[derive(Debug, Clone, PartialEq)]
pub struct ContractInvariant {
    pub field: String,
    pub min: serde_json::Number,
    pub max: serde_json::Number,
}

pub struct ContractFormulaView {
    pub lhs: Seq<char>,
    pub rhs: Seq<char>,
}

pub struct ContractInvariantView {
    pub field: Seq<char>,
    pub min: serde_json::Number,
    pub max: serde_json::Number,
}

impl View for ContractFormula {
    type V = ContractFormulaView;

    open spec fn view(&self) -> ContractFormulaView {
        ContractFormulaView { lhs: self.lhs@, rhs: self.rhs@ }
    }
}

impl View for ContractInvariant {
    type V = ContractInvariantView;

    open spec fn view(&self) -> ContractInvariantView {
        ContractInvariantView { field: self.field@, min: self.min, max: self.max }
    }
}

/// The map that a list of entries describes: each key with the value of its
/// last entry.
pub open spec fn pairs_map(entries: Seq<(Seq<char>, Seq<char>)>) -> Map<Seq<char>, Seq<char>>
    decreases entries.len(),
{
    if entries.len() == 0 {
        Map::empty()
    } else {
        pairs_map(entries.drop_last()).insert(entries.last().0, entries.last().1)
    }
}

/// No key occurs twice.
pub open spec fn keys_distinct(entries: Seq<(Seq<char>, Seq<char>)>) -> bool {
    forall|i: int, j: int|
        0 <= i < entries.len() && 0 <= j < entries.len() && i != j ==> #[trigger] entries[i].0
            != #[trigger] entries[j].0
}

/// The keys come in strictly increasing order.
pub open spec fn keys_sorted(entries: Seq<(Seq<char>, Seq<char>)>) -> bool {
    forall|i: int, j: int|
        0 <= i < j < entries.len() ==> lex_lt(#[trigger] entries[i].0, #[trigger] entries[j].0)
}

/// A key is in the map exactly where some entry has it.
pub proof fn lemma_pairs_map_dom(entries: Seq<(Seq<char>, Seq<char>)>, key: Seq<char>)
    ensures
        pairs_map(entries).dom().contains(key) <==> exists|i: int|
            0 <= i < entries.len() && #[trigger] entries[i].0 == key,
    decreases entries.len(),
{
    if entries.len() > 0 {
        let d = entries.drop_last();
        lemma_pairs_map_dom(d, key);
        if pairs_map(d).dom().contains(key) {
            let i = choose|i: int| 0 <= i < d.len() && #[trigger] d[i].0 == key;
            assert(entries[i].0 == key);
        }
        if exists|i: int| 0 <= i < entries.len() && #[trigger] entries[i].0 == key {
            let i = choose|i: int| 0 <= i < entries.len() && #[trigger] entries[i].0 == key;
            if i < entries.len() - 1 {
                assert(d[i].0 == key);
            }
        }
    }
}

/// With distinct keys, each entry's key maps to that entry's value.
pub proof fn lemma_pairs_map_at(entries: Seq<(Seq<char>, Seq<char>)>, i: int)
    requires
        keys_distinct(entries),
        0 <= i < entries.len(),
    ensures
        pairs_map(entries).dom().contains(entries[i].0),
        pairs_map(entries)[entries[i].0] == entries[i].1,
    decreases entries.len(),
{
    if i < entries.len() - 1 {
        let d = entries.drop_last();
        assert(d[i] == entries[i]);
        assert(entries[entries.len() - 1].0 != entries[i].0);
        assert(keys_distinct(d)) by {
            assert forall|a: int, b: int|
                0 <= a < d.len() && 0 <= b < d.len() && a != b implies #[trigger] d[a].0
                != #[trigger] d[b].0 by {
                assert(d[a] == entries[a] && d[b] == entries[b]);
            }
        }
        lemma_pairs_map_at(d, i);
    }
}

/// With distinct keys, the map has as many keys as there are entries.
pub proof fn lemma_pairs_map_len(entries: Seq<(Seq<char>, Seq<char>)>)
    requires
        keys_distinct(entries),
    ensures
        pairs_map(entries).dom().finite(),
        pairs_map(entries).dom().len() == entries.len(),
    decreases entries.len(),
{
    if entries.len() > 0 {
        let d = entries.drop_last();
        assert(keys_distinct(d)) by {
            assert forall|a: int, b: int|
                0 <= a < d.len() && 0 <= b < d.len() && a != b implies #[trigger] d[a].0
                != #[trigger] d[b].0 by {
                assert(d[a] == entries[a] && d[b] == entries[b]);
            }
        }
        lemma_pairs_map_len(d);
        lemma_pairs_map_dom(d, entries.last().0);
        if pairs_map(d).dom().contains(entries.last().0) {
            let i = choose|i: int| 0 <= i < d.len() && #[trigger] d[i].0 == entries.last().0;
            assert(entries[i].0 == entries[entries.len() - 1].0);
        }
    }
}

/// Sorted keys are distinct keys.
pub proof fn lemma_sorted_distinct(entries: Seq<(Seq<char>, Seq<char>)>)
    requires
        keys_sorted(entries),
    ensures
        keys_distinct(entries),
{
    assert forall|i: int, j: int|
        0 <= i < entries.len() && 0 <= j < entries.len() && i != j implies #[trigger] entries[i].0
        != #[trigger] entries[j].0 by {
        if entries[i].0 == entries[j].0 {
            lemma_lex_irreflexive(entries[i].0, 0);
            if i < j {
                assert(lex_lt(entries[i].0, entries[j].0));
            } else {
                assert(lex_lt(entries[j].0, entries[i].0));
            }
        }
    }
}

/// Entries of strings as entries of character sequences.
pub open spec fn entry_views(v: Seq<(String, String)>) -> Seq<(Seq<char>, Seq<char>)> {
    v.map_values(|e: (String, String)| (e.0@, e.1@))
}

/// The string-keyed map of the `meta` section.  It keeps its entries in the
/// order of their keys, each key once, so that they come out sorted, as a
/// `BTreeMap<String, String>` would give them.  A `BTreeMap` itself is not
/// used: vstd's specifications of its methods hold only for key types that
/// obey vstd's model of `Ord` (`obeys_cmp`), which vstd establishes for
/// integer keys but not for `String`, so nothing could be proved of a map
/// keyed by strings.
#[derive(Debug, PartialEq, Eq)]
pub struct MetaMap {
    entries: Vec<(String, String)>,
}

impl View for MetaMap {
    type V = Map<Seq<char>, Seq<char>>;

    closed spec fn view(&self) -> Map<Seq<char>, Seq<char>> {
        pairs_map(self.entry_seq())
    }
}

impl MetaMap {
    /// The entries as values, in order.
    pub closed spec fn entry_seq(&self) -> Seq<(Seq<char>, Seq<char>)> {
        entry_views(self.entries@)
    }

    /// The keys of the entries are strictly increasing.
    #[verifier::type_invariant]
    spec fn keys_in_order(self) -> bool {
        keys_sorted(self.entry_seq())
    }

    /// An empty map.
    pub fn new() -> (m: Self)
        ensures
            m@ == Map::<Seq<char>, Seq<char>>::empty(),
    {
        let m = MetaMap { entries: Vec::new() };
        assert(m.entry_seq() =~= Seq::<(Seq<char>, Seq<char>)>::empty());
        m
    }

    /// The number of keys.
    pub fn len(&self) -> (n: usize)
        ensures
            self@.dom().finite(),
            n == self@.dom().len(),
    {
        proof {
            use_type_invariant(self);
            lemma_sorted_distinct(self.entry_seq());
            lemma_pairs_map_len(self.entry_seq());
        }
        self.entries.len()
    }

    /// The value stored under `key`.
    pub fn get(&self, key: &str) -> (r: Option<&String>)
        ensures
            r matches Some(v) ==> self@.contains_key(key@) && self@[key@] == v@,
            r is None ==> !self@.contains_key(key@),
    {
        let ghost e = self.entry_seq();
        proof {
            use_type_invariant(self);
            lemma_sorted_distinct(e);
            lemma_pairs_map_dom(e, key@);
        }
        let mut i: usize = 0;
        while i < self.entries.len()
            invariant
                i <= self.entries.len(),
                e == self.entry_seq(),
                keys_distinct(e),
                forall|j: int| 0 <= j < i ==> #[trigger] e[j].0 != key@,
            decreases self.entries.len() - i,
        {
            assert(e[i as int] == (self.entries@[i as int].0@, self.entries@[i as int].1@));
            if str_eq(self.entries[i].0.as_str(), key) {
                proof {
                    lemma_pairs_map_at(e, i as int);
                }
                return Some(&self.entries[i].1);
            }
            i = i + 1;
        }
        None
    }

    /// Stores `value` under `key`, replacing the value stored there before.
    pub fn insert(&mut self, key: String, value: String)
        ensures
            final(self)@ == old(self)@.insert(key@, value@),
    {
        proof {
            use_type_invariant(&*self);
        }
        let ghost before = self.entry_seq();
        let ghost entry = (key@, value@);
        proof {
            lemma_sorted_distinct(before);
        }
        let mut entries: Vec<(String, String)> = Vec::new();
        std::mem::swap(&mut entries, &mut self.entries);
        assert(entries@.map_values(|e: (String, String)| (e.0@, e.1@)) == before);
        let n = entries.len();
        let mut i: usize = 0;
        while i < n && str_lt(entries[i].0.as_str(), key.as_str())
            invariant
                n == entries.len(),
                entries@.map_values(|e: (String, String)| (e.0@, e.1@)) == before,
                i <= n,
                forall|j: int| 0 <= j < i ==> lex_lt(#[trigger] before[j].0, key@),
            decreases n - i,
        {
            assert(before[i as int] == (entries@[i as int].0@, entries@[i as int].1@));
            i = i + 1;
        }
        if i < n {
            assert(before[i as int] == (entries@[i as int].0@, entries@[i as int].1@));
        }
        let replace = i < n && str_eq(entries[i].0.as_str(), key.as_str());
        let ghost after = if replace {
            before.update(i as int, entry)
        } else {
            before.insert(i as int, entry)
        };
        if replace {
            entries.set(i, (key, value));
            assert(entries@.map_values(|e: (String, String)| (e.0@, e.1@)) =~= after);
        } else {
            entries.insert(i, (key, value));
            assert(entries@.map_values(|e: (String, String)| (e.0@, e.1@)) =~= after);
            proof {
                if i < n {
                    lemma_lex_total(key@, before[i as int].0, 0);
                }
            }
        }
        proof {
            assert(keys_sorted(after)) by {
                assert forall|a: int, b: int| 0 <= a < b < after.len() implies lex_lt(
                    #[trigger] after[a].0,
                    #[trigger] after[b].0,
                ) by {
                    if replace {
                        assert(after[a].0 == before[a].0 && after[b].0 == before[b].0);
                    } else if b < i {
                        assert(after[a] == before[a] && after[b] == before[b]);
                    } else if b == i {
                        assert(after[a] == before[a]);
                    } else if a == i {
                        assert(after[b] == before[b - 1]);
                        if b - 1 > i {
                            assert(lex_lt(before[i as int].0, before[b - 1].0));
                            lemma_lex_transitive(key@, before[i as int].0, before[b - 1].0, 0);
                        }
                    } else if a < i {
                        assert(after[a] == before[a] && after[b] == before[b - 1]);
                        if b - 1 >= i {
                            if (i as int) < b - 1 {
                                assert(lex_lt(before[i as int].0, before[b - 1].0));
                                lemma_lex_transitive(key@, before[i as int].0, before[b - 1].0, 0);
                            }
                            lemma_lex_transitive(before[a].0, key@, before[b - 1].0, 0);
                        }
                    } else {
                        assert(after[a] == before[a - 1] && after[b] == before[b - 1]);
                    }
                }
            }
            lemma_sorted_distinct(after);
            assert(pairs_map(after) =~= pairs_map(before).insert(key@, value@)) by {
                assert forall|k: Seq<char>| #[trigger] pairs_map(after).dom().contains(k)
                    == pairs_map(before).insert(key@, value@).dom().contains(k) by {
                    lemma_pairs_map_dom(after, k);
                    lemma_pairs_map_dom(before, k);
                    if k != key@ {
                        if exists|j: int| 0 <= j < before.len() && #[trigger] before[j].0 == k {
                            let j = choose|j: int| 0 <= j < before.len() && #[trigger] before[j].0
                                == k;
                            if replace || j < i {
                                assert(after[j].0 == k);
                            } else {
                                assert(after[j + 1].0 == k);
                            }
                        }
                        if exists|j: int| 0 <= j < after.len() && #[trigger] after[j].0 == k {
                            let j = choose|j: int| 0 <= j < after.len() && #[trigger] after[j].0
                                == k;
                            if replace || j < i {
                                assert(before[j].0 == k);
                            } else {
                                assert(before[j - 1].0 == k);
                            }
                        }
                    } else {
                        assert(after[i as int].0 == k);
                    }
                }
                assert forall|k: Seq<char>| #[trigger] pairs_map(after).dom().contains(k) implies
                    pairs_map(after)[k] == pairs_map(before).insert(key@, value@)[k] by {
                    lemma_pairs_map_dom(after, k);
                    let j = choose|j: int| 0 <= j < after.len() && #[trigger] after[j].0 == k;
                    lemma_pairs_map_at(after, j);
                    assert(after[i as int] == entry);
                    if k != key@ {
                        let jb = if replace || j < i { j } else { j - 1 };
                        assert(j != i);
                        assert(before[jb] == after[j]);
                        lemma_pairs_map_at(before, jb);
                        assert(pairs_map(before)[k] == after[j].1);
                    } else {
                        assert(keys_distinct(after));
                        assert(after[j].0 == after[i as int].0);
                        assert(j == i);
                        assert(pairs_map(after)[k] == value@);
                    }
                }
            }
        }
        self.entries = entries;
    }

    /// The entries, in the order of their keys.
    pub fn into_entries(self) -> (v: Vec<(String, String)>)
        ensures
            keys_sorted(v@.map_values(|e: (String, String)| (e.0@, e.1@))),
            pairs_map(v@.map_values(|e: (String, String)| (e.0@, e.1@))) == self@,
    {
        proof {
            use_type_invariant(&self);
        }
        self.entries
    }
}

impl Clone for MetaMap {
    /// A map with the same entries.
    fn clone(&self) -> (m: Self)
        ensures
            m@ == self@,
    {
        proof {
            use_type_invariant(self);
        }
        let ghost e = self.entry_seq();
        let mut entries: Vec<(String, String)> = Vec::new();
        let mut i: usize = 0;
        assert(entry_views(entries@) =~= e.take(0));
        while i < self.entries.len()
            invariant
                i <= self.entries.len(),
                e == self.entry_seq(),
                entries@.len() == i,
                entry_views(entries@) == e.take(i as int),
            decreases self.entries.len() - i,
        {
            assert(e[i as int] == (self.entries@[i as int].0@, self.entries@[i as int].1@));
            let key = self.entries[i].0.clone();
            let value = self.entries[i].1.clone();
            let ghost before = entries@;
            entries.push((key, value));
            assert(entry_views(entries@) =~= e.take(i + 1)) by {
                assert forall|j: int| 0 <= j <= i implies #[trigger] entry_views(entries@)[j]
                    == e.take(i + 1)[j] by {
                    if j < i {
                        assert(entries@[j] == before[j]);
                        assert(entry_views(before)[j] == e.take(i as int)[j]);
                    }
                }
            }
            i = i + 1;
        }
        assert(e.take(i as int) =~= e);
        MetaMap { entries }
    }
}

/// The compiled contract.
#[derive(Debug, Clone, PartialEq)]
pub struct Contract {
    pub meta: MetaMap,
    pub formulas: Vec<ContractFormula>,
    pub invariants: Vec<ContractInvariant>,
    pub pipeline: Vec<String>,
}

/// A contract as values: the meta map, formulas, invariants, and the names
/// of the pipeline's operations.
pub struct ContractView {
    pub meta: Map<Seq<char>, Seq<char>>,
    pub formulas: Seq<ContractFormulaView>,
    pub invariants: Seq<ContractInvariantView>,
    pub pipeline: Seq<Seq<char>>,
}

impl View for Contract {
    type V = ContractView;

    open spec fn view(&self) -> ContractView {
        ContractView {
            meta: self.meta@,
            formulas: self.formulas@.map_values(|f: ContractFormula| f@),
            invariants: self.invariants@.map_values(|i: ContractInvariant| i@),
            pipeline: self.pipeline@.map_values(|p: String| p@),
        }
    }
}

/// What went wrong while compiling a document.
#[derive(Debug, Clone, Copy, PartialEq, Eq)]
pub enum ErrorCode {
    UnknownSection,
    InvalidSyntax,
    DuplicateSection,
    UnknownField,
    InvalidFormula,
    InvalidInvariant,
    UnknownVariable,
    UnknownOp,
    MissingMeta,
    EmptyFormula,
    MissingPipeline,
    DuplicateMetaKey,
}

impl ErrorCode {
    /// The name of the code in upper snake case.
    pub open spec fn spec_name(self) -> Seq<char> {
        match self {
            ErrorCode::UnknownSection => "UNKNOWN_SECTION"@,
            ErrorCode::InvalidSyntax => "INVALID_SYNTAX"@,
            ErrorCode::DuplicateSection => "DUPLICATE_SECTION"@,
            ErrorCode::UnknownField => "UNKNOWN_FIELD"@,
            ErrorCode::InvalidFormula => "INVALID_FORMULA"@,
            ErrorCode::InvalidInvariant => "INVALID_INVARIANT"@,
            ErrorCode::UnknownVariable => "UNKNOWN_VARIABLE"@,
            ErrorCode::UnknownOp => "UNKNOWN_OP"@,
            ErrorCode::MissingMeta => "MISSING_META"@,
            ErrorCode::EmptyFormula => "EMPTY_FORMULA"@,
            ErrorCode::MissingPipeline => "MISSING_PIPELINE"@,
            ErrorCode::DuplicateMetaKey => "DUPLICATE_META_KEY"@,
        }
    }

    pub fn as_str(self) -> (s: &'static str)
        ensures
            s@ == self.spec_name(),
    {
        match self {
            ErrorCode::UnknownSection => "UNKNOWN_SECTION",
            ErrorCode::InvalidSyntax => "INVALID_SYNTAX",
            ErrorCode::DuplicateSection => "DUPLICATE_SECTION",
            ErrorCode::UnknownField => "UNKNOWN_FIELD",
            ErrorCode::InvalidFormula => "INVALID_FORMULA",
            ErrorCode::InvalidInvariant => "INVALID_INVARIANT",
            ErrorCode::UnknownVariable => "UNKNOWN_VARIABLE",
            ErrorCode::UnknownOp => "UNKNOWN_OP",
            ErrorCode::MissingMeta => "MISSING_META",
            ErrorCode::EmptyFormula => "EMPTY_FORMULA",
            ErrorCode::MissingPipeline => "MISSING_PIPELINE",
            ErrorCode::DuplicateMetaKey => "DUPLICATE_META_KEY",
        }
    }

    /// The name of the code as an owned string.
    pub fn to_string(self) -> (s: String)
        ensures
            s@ == self.spec_name(),
    {
        String::from_str(self.as_str())
    }
}

/// A compile error: its code, a message, and the line it was found on, if any.
#[derive(Debug, Clone, PartialEq, Eq)]
pub struct CompileError {
    pub code: ErrorCode,
    pub message: String,
    pub line: Option<usize>,
}

pub struct ErrorView {
    pub code: ErrorCode,
    pub message: Seq<char>,
    pub line: Option<nat>,
}

impl View for CompileError {
    type V = ErrorView;

    open spec fn view(&self) -> ErrorView {
        ErrorView {
            code: self.code,
            message: self.message@,
            line: match self.line {
                Some(l) => Some(l as nat),
                None => None,
            },
        }
    }
}

impl CompileError {
    pub fn new(code: ErrorCode, message: &str, line: Option<usize>) -> (e: Self)
        ensures
            e.code == code,
            e.message@ == message@,
            e.line == line,
    {
        CompileError { code, message: String::from_str(message), line }
    }

    /// The error as one line of text: `CODE: message (line N)`, or
    /// `CODE: message` where the line is not known.
    pub open spec fn spec_text(self) -> Seq<char> {
        self.code.spec_name() + ": "@ + self.message@ + match self.line {
            Some(l) => " (line "@ + decimal(l as nat) + ")"@,
            None => Seq::empty(),
        }
    }

    pub fn to_string(&self) -> (s: String)
        ensures
            s@ == self.spec_text(),
    {
        let mut s = String::new();
        push_str_chars(&mut s, self.code.as_str());
        push_str_chars(&mut s, ": ");
        push_str_chars(&mut s, self.message.as_str());
        match self.line {
            Some(l) => {
                push_str_chars(&mut s, " (line ");
                push_decimal(&mut s, l);
                push_str_chars(&mut s, ")");
            },
            None => {},
        }
        assert(s@ =~= self.spec_text());
        s
    }
}

} // verus!
