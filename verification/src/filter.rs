//! The filter stage: a `jaq` expression is applied to a document, and every value that it
//! yields is read back.
//!
//! Only expressions of a fragment are handed to `jaq`: those that define no filter of
//! their own, assign nothing and do no arithmetic. Outside that fragment an expression can
//! recurse without end, and integer arithmetic and assignment have inputs on which `jaq`
//! does not return a value at all.

use vstd::prelude::*;
use crate::value::{
    entry_views, from_serde, json_of, lemma_array_view, lemma_object_view, number_as_i64,
    number_i64, to_serde, views, JsonValue, JsonView,
};

verus! {

/// The value type of `jaq_interpret`. What one converts to is named by [`val_json`].
#[verifier::external_type_specification]
#[verifier::external_body]
pub struct ExVal(jaq_interpret::Val);

/// The error type of `jaq_interpret`; the filter stage hands its text on.
#[verifier::external_type_specification]
#[verifier::external_body]
#[verifier::reject_recursive_types(V)]
pub struct ExFilterError<V>(jaq_interpret::Error<V>);

/// Why the filter stage failed.
#[derive(Debug, PartialEq, Eq)]
pub enum FilterFailure {
    /// The expression lies outside the fragment that is handed to `jaq`.
    Unsupported,
    /// The document holds the least integer of the machine, which `jaq` cannot take as an
    /// index.
    LeastInteger,
    /// The expression is no filter.
    Parse,
    /// The filter refers to something that is not defined.
    Compile,
    /// The filter failed on the value, with the text of the failure.
    Evaluate(String),
}

/// The mathematical model of a [`FilterFailure`].
pub enum FilterFailureView {
    Unsupported,
    LeastInteger,
    Parse,
    Compile,
    Evaluate(Seq<char>),
}

impl View for FilterFailure {
    type V = FilterFailureView;

    open spec fn view(&self) -> FilterFailureView {
        match self {
            FilterFailure::Unsupported => FilterFailureView::Unsupported,
            FilterFailure::LeastInteger => FilterFailureView::LeastInteger,
            FilterFailure::Parse => FilterFailureView::Parse,
            FilterFailure::Compile => FilterFailureView::Compile,
            FilterFailure::Evaluate(text) => FilterFailureView::Evaluate(text@),
        }
    }
}

/// Whether a character is part of an assignment or of integer arithmetic: `=`, `+`, `-`,
/// `*` or `%`.
pub open spec fn is_operator_char(c: char) -> bool {
    c == '=' || c == '+' || c == '-' || c == '*' || c == '%'
}

/// Whether a character can begin an identifier: an ASCII letter or the underscore.
pub open spec fn is_word_start(c: char) -> bool {
    ('a' <= c && c <= 'z') || ('A' <= c && c <= 'Z') || c == '_'
}

/// Whether a character can continue an identifier: an ASCII letter or digit, or the
/// underscore.
pub open spec fn is_word_char(c: char) -> bool {
    is_word_start(c) || ('0' <= c && c <= '9')
}

/// Whether the word `def` stands at index `i` of a text: the three letters, not directly
/// after a character that begins identifiers and not directly before one that continues
/// them.
pub open spec fn defines_at(text: Seq<char>, i: int) -> bool {
    &&& 0 <= i && i + 3 <= text.len()
    &&& text[i] == 'd' && text[i + 1] == 'e' && text[i + 2] == 'f'
    &&& i == 0 || !is_word_start(text[i - 1])
    &&& i + 3 == text.len() || !is_word_char(text[i + 3])
}

/// Whether an expression lies in the fragment that is handed to `jaq`: it holds none of
/// the characters `=`, `+`, `-`, `*`, `%`, in a string or outside one, and nowhere the
/// word `def`.
pub open spec fn admitted(text: Seq<char>) -> bool {
    &&& forall|i: int| 0 <= i < text.len() ==> !is_operator_char(#[trigger] text[i])
    &&& forall|i: int| 0 <= i < text.len() ==> !#[trigger] defines_at(text, i)
}

/// Whether a number is the least integer of the machine.
pub open spec fn is_least_integer(n: serde_json::Number) -> bool {
    number_i64(n) == Some(isize::MIN as i64)
}

/// Whether a value holds the least integer of the machine, itself or anywhere inside.
pub open spec fn holds_least_integer(value: JsonView) -> bool
    decreases value,
{
    match value {
        JsonView::Number(n) => is_least_integer(n),
        JsonView::Array(items) => exists|i: int|
            0 <= i < items.len() && holds_least_integer(#[trigger] items[i]),
        JsonView::Object(entries) => exists|i: int|
            0 <= i < entries.len() && holds_least_integer((#[trigger] entries[i]).value),
        _ => false,
    }
}

/// What a value of `jaq` converts to: the JSON value, or the text of the error where it
/// holds a number that is no JSON number.
pub uninterp spec fn val_json(v: jaq_interpret::Val) -> Result<JsonView, Seq<char>>;

/// What a `jaq` filter yields for an input: each output in its order, as the value or as
/// the text of its error; or the failure to parse or to compile the expression.
pub uninterp spec fn filter_outputs(filter: Seq<char>, input: JsonView) -> Result<
    Seq<Result<JsonView, Seq<char>>>,
    FilterFailureView,
>;

/// The outcomes that the outputs of a filter stand for.
pub open spec fn outcomes_of(outputs: Seq<Result<jaq_interpret::Val, String>>) -> Seq<
    Result<JsonView, Seq<char>>,
> {
    Seq::new(
        outputs.len(),
        |i: int|
            match outputs[i] {
                Ok(v) => val_json(v),
                Err(text) => Err(text@),
            },
    )
}

/// The models of a sequence of outcomes.
pub open spec fn outcome_views(outcomes: Seq<Result<JsonValue, String>>) -> Seq<
    Result<JsonView, Seq<char>>,
> {
    Seq::new(
        outcomes.len(),
        |i: int|
            match outcomes[i] {
                Ok(value) => Ok(value@),
                Err(text) => Err(text@),
            },
    )
}

/// `jaq_parse::parse`, `jaq_interpret::ParseCtx::compile` and `jaq_interpret::FilterT::run`
/// in turn, with no definitions at all: every output of the filter for `input`, as the
/// value or as the text of its error. The expression fails to parse where the parser
/// reports an error, and to compile where the compiler reports one.
///
/// Left out are the expressions outside the fragment and the inputs with the least
/// integer. With a definition an expression can recurse without end; an assignment to a
/// `try`, an alternative or a fold is not implemented in `jaq`; sum, difference, product,
/// remainder and negation of integers overflow; and an index that is the least integer
/// overflows when `jaq` counts it from the end.
#[verifier::external_body]
pub(crate) fn eval_filter(filter: &str, input: &serde_json::Value) -> (r: Result<
    Vec<Result<jaq_interpret::Val, String>>,
    FilterFailure,
>)
    requires
        admitted(filter@),
        !holds_least_integer(json_of(*input)),
    ensures
        match r {
            Ok(outputs) => filter_outputs(filter@, json_of(*input)) == Ok::<
                Seq<Result<JsonView, Seq<char>>>,
                FilterFailureView,
            >(outcomes_of(outputs@)),
            Err(failure) => (failure@ is Parse || failure@ is Compile) && filter_outputs(
                filter@,
                json_of(*input),
            ) == Err::<Seq<Result<JsonView, Seq<char>>>, FilterFailureView>(failure@),
        },
{
    let mut defs = jaq_interpret::ParseCtx::new(Vec::new());
    let (parsed, errs) = jaq_parse::parse(filter, jaq_parse::main());
    let main = match parsed {
        Some(main) if errs.is_empty() => main,
        _ => return Err(FilterFailure::Parse),
    };
    let compiled = defs.compile(main);
    if !defs.errs.is_empty() {
        return Err(FilterFailure::Compile);
    }
    let inputs = jaq_interpret::RcIter::new(core::iter::empty());
    let ctx = jaq_interpret::Ctx::new([], &inputs);
    let out = jaq_interpret::FilterT::run(&compiled, (ctx, jaq_interpret::Val::from(input.clone())));
    Ok(out.map(|r| r.map_err(|e| e.to_string())).collect())
}

/// Reads a value of `jaq` into a [`JsonValue`]. An array and an object are read item by
/// item. A number that `jaq` holds as text is read by `serde_json::Number::from_str`,
/// whose error is handed back as text. Any other value goes through the conversion of
/// `jaq_interpret` itself: an integer and a finite fraction become numbers, a fraction that
/// is not finite becomes `null`. The keys of a `jaq` object are distinct, so the result is
/// well formed.
#[verifier::external_body]
pub(crate) fn val_to_json(v: &jaq_interpret::Val) -> (r: Result<JsonValue, String>)
    ensures
        match r {
            Ok(value) => val_json(*v) == Ok::<JsonView, Seq<char>>(value@) && value@.wf(),
            Err(text) => val_json(*v) == Err::<JsonView, Seq<char>>(text@),
        },
{
    match v {
        jaq_interpret::Val::Num(n) => match n.parse::<serde_json::Number>() {
            Ok(number) => Ok(JsonValue::Number(number)),
            Err(e) => Err(e.to_string()),
        },
        jaq_interpret::Val::Arr(a) => {
            a.iter().map(val_to_json).collect::<Result<_, _>>().map(JsonValue::Array)
        },
        jaq_interpret::Val::Obj(o) => {
            let entries = o.iter().map(|e| Ok(((**e.0).clone(), val_to_json(e.1)?)));
            entries.collect::<Result<_, String>>().map(JsonValue::Object)
        },
        scalar => Ok(from_serde(&serde_json::Value::from(scalar.clone()))),
    }
}

/// The characters of a text.
fn chars_of(text: &str) -> (r: Vec<char>)
    ensures
        r@ == text@,
{
    let mut out: Vec<char> = Vec::new();
    for c in it: text.chars()
        invariant
            it.seq() == text@,
            out@ == text@.take(it.index() as int),
    {
        out.push(c);
        assert(text@.take(it.index() + 1) =~= text@.take(it.index() as int).push(c));
    }
    assert(text@.take(text@.len() as int) =~= text@);
    out
}

/// Tells whether a character is part of an assignment or of integer arithmetic.
fn operator_char(c: char) -> (r: bool)
    ensures
        r == is_operator_char(c),
{
    c == '=' || c == '+' || c == '-' || c == '*' || c == '%'
}

/// Tells whether a character can begin an identifier.
fn word_start(c: char) -> (r: bool)
    ensures
        r == is_word_start(c),
{
    ('a' <= c && c <= 'z') || ('A' <= c && c <= 'Z') || c == '_'
}

/// Tells whether a character can continue an identifier.
fn word_char(c: char) -> (r: bool)
    ensures
        r == is_word_char(c),
{
    word_start(c) || ('0' <= c && c <= '9')
}

/// Tells whether an expression lies in the fragment that is handed to `jaq`.
pub fn is_admitted(filter: &str) -> (r: bool)
    ensures
        r == admitted(filter@),
{
    let text = chars_of(filter);
    let mut i: usize = 0;
    while i < text.len()
        invariant
            i <= text.len(),
            text@ == filter@,
            forall|k: int| 0 <= k < i ==> !is_operator_char(#[trigger] text@[k]),
            forall|k: int| 0 <= k < i ==> !#[trigger] defines_at(text@, k),
        decreases text.len() - i,
    {
        if operator_char(text[i]) {
            return false;
        }
        if text.len() - i >= 3 && text[i] == 'd' && text[i + 1] == 'e' && text[i + 2] == 'f' {
            let free_before = i == 0 || !word_start(text[i - 1]);
            let free_after = i + 3 == text.len() || !word_char(text[i + 3]);
            if free_before && free_after {
                assert(defines_at(text@, i as int));
                return false;
            }
        }
        i += 1;
    }
    true
}

/// Tells whether a value holds the least integer of the machine, itself or anywhere
/// inside.
#[verifier::loop_isolation(false)]
pub fn has_least_integer(value: &JsonValue) -> (r: bool)
    ensures
        r == holds_least_integer(value@),
    decreases value,
{
    match value {
        JsonValue::Number(n) => match number_as_i64(n) {
            Some(i) => i == isize::MIN as i64,
            None => false,
        },
        JsonValue::Array(items) => {
            proof {
                lemma_array_view(*items);
            }
            let mut i: usize = 0;
            while i < items.len()
                invariant
                    i <= items.len(),
                    forall|k: int| 0 <= k < i ==> !holds_least_integer(#[trigger] views(items@)[k]),
                decreases items.len() - i,
            {
                assert(views(items@)[i as int] == items[i as int]@);
                if has_least_integer(&items[i]) {
                    assert(holds_least_integer(value@->Array_0[i as int]));
                    return true;
                }
                i += 1;
            }
            false
        },
        JsonValue::Object(entries) => {
            proof {
                lemma_object_view(*entries);
            }
            let mut i: usize = 0;
            while i < entries.len()
                invariant
                    i <= entries.len(),
                    forall|k: int|
                        0 <= k < i ==> !holds_least_integer(
                            (#[trigger] entry_views(entries@)[k]).value,
                        ),
                decreases entries.len() - i,
            {
                assert(entry_views(entries@)[i as int].value == entries[i as int].1@);
                if has_least_integer(&entries[i].1) {
                    assert(holds_least_integer(value@->Object_0[i as int].value));
                    return true;
                }
                i += 1;
            }
            false
        },
        _ => false,
    }
}

/// The index of the first outcome at or after `start` that is an error.
pub open spec fn first_error(outcomes: Seq<Result<JsonView, Seq<char>>>, start: int) -> Option<int>
    decreases outcomes.len() - start,
{
    if start < 0 || start >= outcomes.len() {
        None
    } else if outcomes[start] is Err {
        Some(start)
    } else {
        first_error(outcomes, start + 1)
    }
}

/// What the outcomes of a filter stand for: the values in their order where every outcome
/// is a value, else the failure to evaluate, with the text of the first error. No error is
/// passed over.
pub open spec fn decided(outcomes: Seq<Result<JsonView, Seq<char>>>) -> Result<
    Seq<JsonView>,
    FilterFailureView,
> {
    match first_error(outcomes, 0) {
        Some(i) => Err(FilterFailureView::Evaluate(outcomes[i]->Err_0)),
        None => Ok(Seq::new(outcomes.len(), |i: int| outcomes[i]->Ok_0)),
    }
}

/// The result of the filter stage for an expression and a document.
pub open spec fn applied(filter: Seq<char>, value: JsonView) -> Result<
    Seq<JsonView>,
    FilterFailureView,
> {
    if !admitted(filter) {
        Err(FilterFailureView::Unsupported)
    } else if holds_least_integer(value) {
        Err(FilterFailureView::LeastInteger)
    } else {
        match filter_outputs(filter, value) {
            Err(failure) => Err(failure),
            Ok(outcomes) => decided(outcomes),
        }
    }
}

/// Decides what the outcomes of a filter stand for: the values, or the failure of the
/// first outcome that is an error.
pub fn decide_outputs(outcomes: Vec<Result<JsonValue, String>>) -> (r: Result<
    Vec<JsonValue>,
    FilterFailure,
>)
    ensures
        match r {
            Ok(values) => decided(outcome_views(outcomes@)) == Ok::<
                Seq<JsonView>,
                FilterFailureView,
            >(views(values@)) && ((forall|i: int|
                0 <= i < outcomes.len() && (#[trigger] outcomes[i]) is Ok ==> outcomes[i]->Ok_0@.wf())
                ==> forall|k: int| 0 <= k < values.len() ==> (#[trigger] values[k])@.wf()),
            Err(failure) => decided(outcome_views(outcomes@)) == Err::<
                Seq<JsonView>,
                FilterFailureView,
            >(failure@),
        },
{
    let ghost all = outcomes@;
    let ghost model = outcome_views(outcomes@);
    let mut values: Vec<JsonValue> = Vec::new();
    for outcome in it: outcomes
        invariant
            it.seq() == all,
            model == outcome_views(all),
            values.len() == it.index(),
            first_error(model, 0) == first_error(model, it.index() as int),
            forall|k: int|
                0 <= k < it.index() ==> all[k] == Ok::<JsonValue, String>(#[trigger] values[k]),
    {
        assert(all[it.index() as int] == outcome);
        assert(model[it.index() as int] == match outcome {
            Ok(value) => Ok::<JsonView, Seq<char>>(value@),
            Err(text) => Err::<JsonView, Seq<char>>(text@),
        });
        match outcome {
            Ok(value) => values.push(value),
            Err(text) => {
                return Err(FilterFailure::Evaluate(text));
            },
        }
    }
    assert(views(values@) =~= Seq::new(model.len(), |i: int| model[i]->Ok_0));
    Ok(values)
}

/// Reads every output of a filter.
fn read_outputs(outputs: &Vec<Result<jaq_interpret::Val, String>>) -> (r: Vec<
    Result<JsonValue, String>,
>)
    ensures
        outcome_views(r@) == outcomes_of(outputs@),
        forall|i: int| 0 <= i < r.len() && (#[trigger] r[i]) is Ok ==> r[i]->Ok_0@.wf(),
{
    let mut outcomes: Vec<Result<JsonValue, String>> = Vec::new();
    let mut i: usize = 0;
    while i < outputs.len()
        invariant
            i <= outputs.len(),
            outcomes.len() == i,
            forall|k: int|
                0 <= k < i ==> outcome_views(outcomes@)[k] == #[trigger] outcomes_of(outputs@)[k],
            forall|k: int| 0 <= k < i && (#[trigger] outcomes[k]) is Ok ==> outcomes[k]->Ok_0@.wf(),
        decreases outputs.len() - i,
    {
        let outcome = match &outputs[i] {
            Ok(v) => val_to_json(v),
            Err(text) => Err(text.clone()),
        };
        outcomes.push(outcome);
        i += 1;
    }
    assert(outcome_views(outcomes@) =~= outcomes_of(outputs@));
    outcomes
}

/// Applies a filter to a document and gives the values that it yields, in their order.
/// An expression outside the fragment is refused, and so is a document that holds the
/// least integer; an error of any output ends the stage.
pub fn apply_filter(filter: &str, value: &JsonValue) -> (r: Result<Vec<JsonValue>, FilterFailure>)
    requires
        value@.wf(),
    ensures
        match r {
            Ok(values) => applied(filter@, value@) == Ok::<Seq<JsonView>, FilterFailureView>(
                views(values@),
            ) && forall|k: int| 0 <= k < values.len() ==> (#[trigger] values[k])@.wf(),
            Err(failure) => applied(filter@, value@) == Err::<Seq<JsonView>, FilterFailureView>(
                failure@,
            ),
        },
{
    if !is_admitted(filter) {
        return Err(FilterFailure::Unsupported);
    }
    if has_least_integer(value) {
        return Err(FilterFailure::LeastInteger);
    }
    let input = to_serde(value);
    match eval_filter(filter, &input) {
        Err(failure) => Err(failure),
        Ok(outputs) => decide_outputs(read_outputs(&outputs)),
    }
}

} // verus!
