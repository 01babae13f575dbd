//! The rules that a parsed document must meet to become a contract.
use vstd::prelude::*;
use crate::ast::{
    lemma_pairs_map_dom, pairs_map, CompileError, ContractFormula, ContractFormulaView, ContractInvariant,
    ContractInvariantView, ContractView, DocumentAst, DocumentView, ErrorCode, ErrorView, FormulaView,
    InvariantView, KeyValueView, MetaMap, PipelineOpView,
};
use crate::chars::str_eq;
use crate::expr::{
    contains_name, expr_error_view, expression_outcome, parse_expression, str_views,
    validate_expression, Expr, ExprError, ExprTree,
};
use crate::number::{
    json_number_of_i64, number_literal_spec, read_bound, Bound, NumberLiteralView,
};
use crate::parser::section_opened;

verus! {

/// A document that passed validation.
#[derive(Debug, Clone, PartialEq)]
pub struct ValidatedDocument {
    pub meta: MetaMap,
    pub formulas: Vec<ContractFormula>,
    pub invariants: Vec<ContractInvariant>,
    pub pipeline: Vec<String>,
}

pub type ValidatedView = ContractView;

impl View for ValidatedDocument {
    type V = ValidatedView;

    open spec fn view(&self) -> ValidatedView {
        ValidatedView {
            meta: self.meta@,
            formulas: self.formulas@.map_values(|f: ContractFormula| f@),
            invariants: self.invariants@.map_values(|i: ContractInvariant| i@),
            pipeline: self.pipeline@.map_values(|p: String| p@),
        }
    }
}

/// The variables that formulas and invariants may name.
pub open spec fn allowed_variable_names() -> Seq<Seq<char>> {
    seq![
        "confidence"@,
        "prediction_error"@,
        "score"@,
        "risk"@,
        "probability"@,
        "expected_value"@,
    ]
}

/// The operations that a pipeline may run.
pub open spec fn allowed_op_names() -> Seq<Seq<char>> {
    seq![
        "update_ema_error"@,
        "update_beliefs"@,
        "confidence_update"@,
        "expected_value"@,
        "selection_score"@,
    ]
}

/// Meta entry `i` repeats the key of an earlier entry.
pub open spec fn meta_error_at(kvs: Seq<KeyValueView>, i: int) -> Option<ErrorView> {
    if exists|j: int| 0 <= j < i && #[trigger] kvs[j].key == kvs[i].key {
        Some(
            ErrorView {
                code: ErrorCode::DuplicateMetaKey,
                message: "duplicate meta key"@,
                line: Some(kvs[i].line),
            },
        )
    } else {
        None
    }
}

pub open spec fn unknown_variable(name: Seq<char>, line: nat) -> ErrorView {
    ErrorView {
        code: ErrorCode::UnknownVariable,
        message: "variable not allowed: "@ + name,
        line: Some(line),
    }
}

/// Formula `i` assigns a variable that is not allowed, or its right-hand
/// side is not an expression over the allowed variables.
pub open spec fn formula_error_at(fs: Seq<FormulaView>, i: int) -> Option<ErrorView> {
    if !allowed_variable_names().contains(fs[i].lhs) {
        Some(unknown_variable(fs[i].lhs, fs[i].line))
    } else {
        match expression_outcome(fs[i].rhs, allowed_variable_names()) {
            Ok(_) => None,
            Err(x) => Some(expr_error_view(x, fs[i].line)),
        }
    }
}

/// Invariant `i` bounds a variable that is not allowed, or one of its
/// bounds is not a number literal, or its bounds do not read as a range.
pub open spec fn invariant_error_at(
    ivs: Seq<InvariantView>,
    bounds: Seq<Option<(serde_json::Number, serde_json::Number)>>,
    i: int,
) -> Option<ErrorView> {
    if !allowed_variable_names().contains(ivs[i].field) {
        Some(unknown_variable(ivs[i].field, ivs[i].line))
    } else if number_literal_spec(ivs[i].min) is None || number_literal_spec(ivs[i].max) is None
        || bounds[i] is None {
        Some(
            ErrorView {
                code: ErrorCode::InvalidInvariant,
                message: "invalid range"@,
                line: Some(ivs[i].line),
            },
        )
    } else {
        None
    }
}

/// Pipeline operation `i` is not registered.
pub open spec fn pipeline_error_at(ops: Seq<PipelineOpView>, i: int) -> Option<ErrorView> {
    if !allowed_op_names().contains(ops[i].name) {
        Some(
            ErrorView {
                code: ErrorCode::UnknownOp,
                message: "operation not registered: "@ + ops[i].name,
                line: Some(ops[i].line),
            },
        )
    } else {
        None
    }
}

/// The first repeated meta key among the entries `0..n`.
pub open spec fn meta_errors(kvs: Seq<KeyValueView>, n: nat) -> Option<ErrorView>
    decreases n,
{
    if n == 0 {
        None
    } else {
        match meta_errors(kvs, (n - 1) as nat) {
            Some(e) => Some(e),
            None => meta_error_at(kvs, n - 1),
        }
    }
}

/// The first error among the formulas `0..n`.
pub open spec fn formula_errors(fs: Seq<FormulaView>, n: nat) -> Option<ErrorView>
    decreases n,
{
    if n == 0 {
        None
    } else {
        match formula_errors(fs, (n - 1) as nat) {
            Some(e) => Some(e),
            None => formula_error_at(fs, n - 1),
        }
    }
}

/// The first error among the invariants `0..n`.
pub open spec fn invariant_errors(
    ivs: Seq<InvariantView>,
    bounds: Seq<Option<(serde_json::Number, serde_json::Number)>>,
    n: nat,
) -> Option<ErrorView>
    decreases n,
{
    if n == 0 {
        None
    } else {
        match invariant_errors(ivs, bounds, (n - 1) as nat) {
            Some(e) => Some(e),
            None => invariant_error_at(ivs, bounds, n - 1),
        }
    }
}

/// The first error among the pipeline operations `0..n`.
pub open spec fn pipeline_errors(ops: Seq<PipelineOpView>, n: nat) -> Option<ErrorView>
    decreases n,
{
    if n == 0 {
        None
    } else {
        match pipeline_errors(ops, (n - 1) as nat) {
            Some(e) => Some(e),
            None => pipeline_error_at(ops, n - 1),
        }
    }
}

/// The meta entries as key/value pairs.
pub open spec fn meta_pairs(kvs: Seq<KeyValueView>) -> Seq<(Seq<char>, Seq<char>)> {
    Seq::new(kvs.len(), |i: int| (kvs[i].key, kvs[i].value))
}

/// The formulas of the contract.
pub open spec fn formula_entries(fs: Seq<FormulaView>) -> Seq<ContractFormulaView> {
    Seq::new(fs.len(), |i: int| ContractFormulaView { lhs: fs[i].lhs, rhs: fs[i].rhs })
}

/// The number that a bound with the text `text` becomes: the JSON number
/// of an integer literal, else the number `read` from floating point.
pub open spec fn bound_number(text: Seq<char>, read: serde_json::Number) -> serde_json::Number {
    match number_literal_spec(text) {
        Some(NumberLiteralView::Integer(v)) => json_number_of_i64(v as i64),
        _ => read,
    }
}

/// The invariants of the contract, with their bounds.
pub open spec fn invariant_entries(
    ivs: Seq<InvariantView>,
    bounds: Seq<Option<(serde_json::Number, serde_json::Number)>>,
) -> Seq<ContractInvariantView> {
    Seq::new(
        ivs.len(),
        |i: int|
            ContractInvariantView {
                field: ivs[i].field,
                min: bound_number(ivs[i].min, bounds[i].unwrap().0),
                max: bound_number(ivs[i].max, bounds[i].unwrap().1),
            },
    )
}

/// The names of the pipeline's operations.
pub open spec fn op_names(ops: Seq<PipelineOpView>) -> Seq<Seq<char>> {
    Seq::new(ops.len(), |i: int| ops[i].name)
}

pub open spec fn missing_meta() -> ErrorView {
    ErrorView { code: ErrorCode::MissingMeta, message: "meta section required"@, line: None }
}

pub open spec fn empty_formula() -> ErrorView {
    ErrorView {
        code: ErrorCode::EmptyFormula,
        message: "at least one formula required"@,
        line: None,
    }
}

pub open spec fn missing_pipeline() -> ErrorView {
    ErrorView {
        code: ErrorCode::MissingPipeline,
        message: "pipeline section required"@,
        line: None,
    }
}

/// The contract that `doc` becomes when every check passes.
pub open spec fn validated_view(
    doc: DocumentView,
    bounds: Seq<Option<(serde_json::Number, serde_json::Number)>>,
) -> ValidatedView {
    ValidatedView {
        meta: pairs_map(meta_pairs(doc.meta)),
        formulas: formula_entries(doc.formulas),
        invariants: invariant_entries(doc.invariants, bounds),
        pipeline: op_names(doc.pipeline),
    }
}

/// The checks, in the order they are made: a `meta` section, a formula, no
/// repeated meta key, the formulas, the invariants (each bound must be a
/// number literal, and `bounds[i]` is the floating-point reading of
/// invariant `i`'s bounds, `None` where they are not a valid range), a
/// `pipeline` section, the operations.  The first failure is
/// the error.
pub open spec fn validate_spec(
    doc: DocumentView,
    bounds: Seq<Option<(serde_json::Number, serde_json::Number)>>,
) -> Result<ValidatedView, ErrorView> {
    if !section_opened(doc.sections, "meta"@) {
        Err(missing_meta())
    } else if doc.formulas.len() == 0 {
        Err(empty_formula())
    } else if let Some(e) = meta_errors(doc.meta, doc.meta.len()) {
        Err(e)
    } else if let Some(e) = formula_errors(doc.formulas, doc.formulas.len()) {
        Err(e)
    } else if let Some(e) = invariant_errors(doc.invariants, bounds, doc.invariants.len()) {
        Err(e)
    } else if !section_opened(doc.sections, "pipeline"@) {
        Err(missing_pipeline())
    } else if let Some(e) = pipeline_errors(doc.pipeline, doc.pipeline.len()) {
        Err(e)
    } else {
        Ok(validated_view(doc, bounds))
    }
}

fn allowed_variables() -> (v: Vec<&'static str>)
    ensures
        str_views(v@) == allowed_variable_names(),
{
    let v = vec!["confidence", "prediction_error", "score", "risk", "probability", "expected_value"];
    assert(str_views(v@) =~= allowed_variable_names());
    v
}

fn allowed_ops() -> (v: Vec<&'static str>)
    ensures
        str_views(v@) == allowed_op_names(),
{
    let v = vec![
        "update_ema_error",
        "update_beliefs",
        "confidence_update",
        "expected_value",
        "selection_score",
    ];
    assert(str_views(v@) =~= allowed_op_names());
    v
}

fn is_allowed_variable(name: &str) -> (r: bool)
    ensures
        r == allowed_variable_names().contains(name@),
{
    let vars = allowed_variables();
    contains_name(vars.as_slice(), name)
}

fn has_section(document: &DocumentAst, name: &str) -> (r: bool)
    ensures
        r == section_opened(document@.sections, name@),
{
    let mut i: usize = 0;
    while i < document.sections.len()
        invariant
            i <= document.sections.len(),
            forall|j: int| 0 <= j < i ==> #[trigger] document@.sections[j].name != name@,
        decreases document.sections.len() - i,
    {
        if str_eq(document.sections[i].name.as_str(), name) {
            assert(document@.sections[i as int].name == name@);
            return true;
        }
        i = i + 1;
    }
    false
}

fn ensure_meta_and_formula_present(document: &DocumentAst) -> (r: Result<(), CompileError>)
    ensures
        r is Ok <==> section_opened(document@.sections, "meta"@) && document@.formulas.len() > 0,
        r matches Err(e) ==> e@ == if !section_opened(document@.sections, "meta"@) {
            missing_meta()
        } else {
            empty_formula()
        },
{
    if !has_section(document, "meta") {
        return Err(CompileError::new(ErrorCode::MissingMeta, "meta section required", None));
    }
    if document.formulas.len() == 0 {
        return Err(
            CompileError::new(ErrorCode::EmptyFormula, "at least one formula required", None),
        );
    }
    Ok(())
}

fn ensure_pipeline_present(document: &DocumentAst) -> (r: Result<(), CompileError>)
    ensures
        r is Ok <==> section_opened(document@.sections, "pipeline"@),
        r matches Err(e) ==> e@ == missing_pipeline(),
{
    if !has_section(document, "pipeline") {
        return Err(
            CompileError::new(ErrorCode::MissingPipeline, "pipeline section required", None),
        );
    }
    Ok(())
}

proof fn lemma_meta_errors_stable(kvs: Seq<KeyValueView>, k: nat, n: nat)
    requires
        k <= n,
        meta_errors(kvs, k) is Some,
    ensures
        meta_errors(kvs, n) == meta_errors(kvs, k),
    decreases n,
{
    if n > k {
        lemma_meta_errors_stable(kvs, k, (n - 1) as nat);
    }
}

proof fn lemma_formula_errors_stable(fs: Seq<FormulaView>, k: nat, n: nat)
    requires
        k <= n,
        formula_errors(fs, k) is Some,
    ensures
        formula_errors(fs, n) == formula_errors(fs, k),
    decreases n,
{
    if n > k {
        lemma_formula_errors_stable(fs, k, (n - 1) as nat);
    }
}

proof fn lemma_invariant_errors_stable(
    ivs: Seq<InvariantView>,
    bounds: Seq<Option<(serde_json::Number, serde_json::Number)>>,
    k: nat,
    n: nat,
)
    requires
        k <= n,
        invariant_errors(ivs, bounds, k) is Some,
    ensures
        invariant_errors(ivs, bounds, n) == invariant_errors(ivs, bounds, k),
    decreases n,
{
    if n > k {
        lemma_invariant_errors_stable(ivs, bounds, k, (n - 1) as nat);
    }
}

proof fn lemma_pipeline_errors_stable(ops: Seq<PipelineOpView>, k: nat, n: nat)
    requires
        k <= n,
        pipeline_errors(ops, k) is Some,
    ensures
        pipeline_errors(ops, n) == pipeline_errors(ops, k),
    decreases n,
{
    if n > k {
        lemma_pipeline_errors_stable(ops, k, (n - 1) as nat);
    }
}

fn validate_meta(document: &DocumentAst) -> (r: Result<MetaMap, CompileError>)
    ensures
        r matches Ok(m) ==> meta_errors(document@.meta, document@.meta.len()) is None && m@
            == pairs_map(meta_pairs(document@.meta)),
        r matches Err(e) ==> meta_errors(document@.meta, document@.meta.len()) == Some(e@),
{
    let ghost kvs = document@.meta;
    let mut meta = MetaMap::new();
    let mut i: usize = 0;
    assert(meta_pairs(kvs).take(0) =~= Seq::<(Seq<char>, Seq<char>)>::empty());
    while i < document.meta.len()
        invariant
            i <= document.meta.len(),
            kvs == document@.meta,
            meta@ == pairs_map(meta_pairs(kvs).take(i as int)),
            meta_errors(kvs, i as nat) is None,
        decreases document.meta.len() - i,
    {
        let kv = &document.meta[i];
        assert(kvs[i as int] == kv@);
        let ghost prefix = meta_pairs(kvs).take(i as int);
        proof {
            lemma_pairs_map_dom(prefix, kv.key@);
        }
        if meta.get(kv.key.as_str()).is_some() {
            proof {
                let j = choose|j: int| 0 <= j < prefix.len() && #[trigger] prefix[j].0 == kv.key@;
                assert(kvs[j].key == prefix[j].0);
                assert(kvs[j].key == kvs[i as int].key);
                lemma_meta_errors_stable(kvs, (i + 1) as nat, kvs.len());
            }
            return Err(
                CompileError::new(ErrorCode::DuplicateMetaKey, "duplicate meta key", Some(kv.line)),
            );
        }
        proof {
            assert forall|j: int| 0 <= j < i implies #[trigger] kvs[j].key != kvs[i as int].key by {
                assert(prefix[j].0 == kvs[j].key);
            }
        }
        meta.insert(kv.key.clone(), kv.value.clone());
        assert(meta_pairs(kvs).take(i + 1).drop_last() =~= prefix);
        i = i + 1;
    }
    assert(meta_pairs(kvs).take(i as int) =~= meta_pairs(kvs));
    Ok(meta)
}

fn validate_formulas(document: &DocumentAst) -> (r: Result<Vec<ContractFormula>, CompileError>)
    ensures
        r matches Ok(v) ==> formula_errors(document@.formulas, document@.formulas.len()) is None
            && v@.len() == document@.formulas.len() && forall|j: int|
            0 <= j < v@.len() ==> #[trigger] v@[j]@ == formula_entries(document@.formulas)[j],
        r matches Err(e) ==> formula_errors(document@.formulas, document@.formulas.len()) == Some(
            e@,
        ),
{
    let ghost fs = document@.formulas;
    let vars = allowed_variables();
    let mut validated: Vec<ContractFormula> = Vec::new();
    let mut i: usize = 0;
    while i < document.formulas.len()
        invariant
            i <= document.formulas.len(),
            fs == document@.formulas,
            str_views(vars@) == allowed_variable_names(),
            validated@.len() == i,
            forall|j: int| 0 <= j < i ==> #[trigger] validated@[j]@ == formula_entries(fs)[j],
            formula_errors(fs, i as nat) is None,
        decreases document.formulas.len() - i,
    {
        let formula = &document.formulas[i];
        assert(fs[i as int] == formula@);
        if !is_allowed_variable(formula.lhs.as_str()) {
            let mut message = String::from_str("variable not allowed: ");
            message.append(formula.lhs.as_str());
            proof {
                lemma_formula_errors_stable(fs, (i + 1) as nat, fs.len());
            }
            return Err(
                CompileError { code: ErrorCode::UnknownVariable, message, line: Some(formula.line) },
            );
        }
        if let Err(e) = validate_expression(formula.rhs.as_str(), formula.line, vars.as_slice()) {
            proof {
                lemma_formula_errors_stable(fs, (i + 1) as nat, fs.len());
            }
            return Err(e);
        }
        validated.push(ContractFormula { lhs: formula.lhs.clone(), rhs: formula.rhs.clone() });
        i = i + 1;
    }
    Ok(validated)
}

/// The syntax trees of the formulas' right-hand sides over the allowed
/// variables, in order, or the error of the first one that is not a valid
/// expression.
pub fn formula_trees(document: &DocumentAst) -> (r: Result<Vec<Expr>, CompileError>)
    ensures
        r matches Ok(v) ==> v@.len() == document@.formulas.len() && forall|j: int|
            0 <= j < v@.len() ==> expression_outcome(
                #[trigger] document@.formulas[j].rhs,
                allowed_variable_names(),
            ) == Ok::<ExprTree, ExprError>(v@[j]@),
        r matches Err(e) ==> exists|i: int|
            #![trigger document@.formulas[i]]
            {
                &&& 0 <= i < document@.formulas.len()
                &&& forall|j: int|
                    0 <= j < i ==> expression_outcome(
                        #[trigger] document@.formulas[j].rhs,
                        allowed_variable_names(),
                    ) is Ok
                &&& expression_outcome(document@.formulas[i].rhs, allowed_variable_names()) matches Err(x)
                    && e@ == expr_error_view(x, document@.formulas[i].line)
            },
{
    let ghost fs = document@.formulas;
    let vars = allowed_variables();
    let mut trees: Vec<Expr> = Vec::new();
    let mut i: usize = 0;
    while i < document.formulas.len()
        invariant
            i <= document.formulas.len(),
            fs == document@.formulas,
            str_views(vars@) == allowed_variable_names(),
            trees@.len() == i,
            forall|j: int|
                0 <= j < i ==> expression_outcome(#[trigger] fs[j].rhs, allowed_variable_names())
                    == Ok::<ExprTree, ExprError>(trees@[j]@),
        decreases document.formulas.len() - i,
    {
        let formula = &document.formulas[i];
        assert(fs[i as int] == formula@);
        let tree = parse_expression(formula.rhs.as_str(), formula.line, vars.as_slice())?;
        trees.push(tree);
        i = i + 1;
    }
    Ok(trees)
}

fn validate_invariants(
    document: &DocumentAst,
    bounds: Vec<Option<(serde_json::Number, serde_json::Number)>>,
) -> (r: Result<Vec<ContractInvariant>, CompileError>)
    requires
        bounds@.len() == document@.invariants.len(),
    ensures
        r matches Ok(v) ==> invariant_errors(
            document@.invariants,
            bounds@,
            document@.invariants.len(),
        ) is None && v@.len() == document@.invariants.len() && forall|j: int|
            0 <= j < v@.len() ==> #[trigger] v@[j]@ == invariant_entries(
                document@.invariants,
                bounds@,
            )[j],
        r matches Err(e) ==> invariant_errors(
            document@.invariants,
            bounds@,
            document@.invariants.len(),
        ) == Some(e@),
{
    let ghost ivs = document@.invariants;
    let ghost bs = bounds@;
    let n = bounds.len();
    // The bounds, last first, so that popping yields them in order.
    let mut pending = bounds;
    let mut reversed: Vec<Option<(serde_json::Number, serde_json::Number)>> = Vec::new();
    while pending.len() > 0
        invariant
            pending@.len() + reversed@.len() == n,
            n == bs.len(),
            forall|j: int| 0 <= j < pending@.len() ==> #[trigger] pending@[j] == bs[j],
            forall|j: int|
                0 <= j < reversed@.len() ==> #[trigger] reversed@[j] == bs[n - 1 - j],
        decreases pending@.len(),
    {
        let b = pending.pop().unwrap();
        reversed.push(b);
    }
    let mut validated: Vec<ContractInvariant> = Vec::new();
    let mut i: usize = 0;
    while i < document.invariants.len()
        invariant
            i <= document.invariants.len(),
            n == bs.len(),
            n == ivs.len(),
            ivs == document@.invariants,
            reversed@.len() == n - i,
            forall|j: int|
                0 <= j < reversed@.len() ==> #[trigger] reversed@[j] == bs[n - 1 - j],
            validated@.len() == i,
            bs == bounds@,
            forall|j: int|
                0 <= j < i ==> #[trigger] validated@[j]@ == invariant_entries(ivs, bs)[j],
            invariant_errors(ivs, bs, i as nat) is None,
        decreases document.invariants.len() - i,
    {
        let inv = &document.invariants[i];
        assert(ivs[i as int] == inv@);
        if !is_allowed_variable(inv.field.as_str()) {
            let mut message = String::from_str("variable not allowed: ");
            message.append(inv.field.as_str());
            proof {
                lemma_invariant_errors_stable(ivs, bs, (i + 1) as nat, ivs.len());
            }
            return Err(
                CompileError { code: ErrorCode::UnknownVariable, message, line: Some(inv.line) },
            );
        }
        let next = reversed.pop().unwrap();
        assert(next == bs[i as int]);
        let low = read_bound(inv.min.as_str(), inv.line);
        let high = read_bound(inv.max.as_str(), inv.line);
        match (low, high, next) {
            (Ok(low), Ok(high), Some((min, max))) => {
                let min = match low {
                    Bound::Exact(n) => n,
                    Bound::Inexact(_) => min,
                };
                let max = match high {
                    Bound::Exact(n) => n,
                    Bound::Inexact(_) => max,
                };
                validated.push(ContractInvariant { field: inv.field.clone(), min, max });
            },
            _ => {
                proof {
                    lemma_invariant_errors_stable(ivs, bs, (i + 1) as nat, ivs.len());
                }
                return Err(
                    CompileError::new(ErrorCode::InvalidInvariant, "invalid range", Some(inv.line)),
                );
            },
        }
        i = i + 1;
    }
    Ok(validated)
}

fn validate_pipeline(document: &DocumentAst) -> (r: Result<Vec<String>, CompileError>)
    ensures
        r matches Ok(v) ==> pipeline_errors(document@.pipeline, document@.pipeline.len()) is None
            && v@.len() == document@.pipeline.len() && forall|j: int|
            0 <= j < v@.len() ==> #[trigger] v@[j]@ == op_names(document@.pipeline)[j],
        r matches Err(e) ==> pipeline_errors(document@.pipeline, document@.pipeline.len()) == Some(
            e@,
        ),
{
    let ghost ops = document@.pipeline;
    let allowed = allowed_ops();
    let mut validated: Vec<String> = Vec::new();
    let mut i: usize = 0;
    while i < document.pipeline.len()
        invariant
            i <= document.pipeline.len(),
            ops == document@.pipeline,
            str_views(allowed@) == allowed_op_names(),
            validated@.len() == i,
            forall|j: int| 0 <= j < i ==> #[trigger] validated@[j]@ == op_names(ops)[j],
            pipeline_errors(ops, i as nat) is None,
        decreases document.pipeline.len() - i,
    {
        let op = &document.pipeline[i];
        assert(ops[i as int] == op@);
        if !contains_name(allowed.as_slice(), op.name.as_str()) {
            let mut message = String::from_str("operation not registered: ");
            message.append(op.name.as_str());
            proof {
                lemma_pipeline_errors_stable(ops, (i + 1) as nat, ops.len());
            }
            return Err(CompileError { code: ErrorCode::UnknownOp, message, line: Some(op.line) });
        }
        validated.push(op.name.clone());
        i = i + 1;
    }
    Ok(validated)
}

/// Validates a parsed document; see `validate_spec`.  Each bound of an
/// invariant must be a number literal; an integer literal becomes its JSON
/// number here.  `bounds[i]` is what floating point makes of the bounds of
/// invariant `i`: both as numbers where they read as finite values with
/// `min <= max`, else `None`; its numbers are used for the bounds that are
/// not integer literals.
pub fn validate_document(
    document: DocumentAst,
    bounds: Vec<Option<(serde_json::Number, serde_json::Number)>>,
) -> (r: Result<ValidatedDocument, CompileError>)
    requires
        bounds@.len() == document@.invariants.len(),
    ensures
        r matches Ok(v) ==> validate_spec(document@, bounds@) == Ok::<ValidatedView, ErrorView>(v@),
        r matches Err(e) ==> validate_spec(document@, bounds@) == Err::<ValidatedView, ErrorView>(e@),
{
    let ghost bs = bounds@;
    ensure_meta_and_formula_present(&document)?;
    let meta = validate_meta(&document)?;
    let formulas = validate_formulas(&document)?;
    let invariants = validate_invariants(&document, bounds)?;
    ensure_pipeline_present(&document)?;
    let pipeline = validate_pipeline(&document)?;
    let v = ValidatedDocument { meta, formulas, invariants, pipeline };
    assert(v@.formulas =~= formula_entries(document@.formulas));
    assert(v@.invariants =~= invariant_entries(document@.invariants, bs));
    assert(v@.pipeline =~= op_names(document@.pipeline));
    assert(v@ =~= validated_view(document@, bs));
    Ok(v)
}

} // verus!
