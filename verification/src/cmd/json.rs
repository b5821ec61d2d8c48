//! JSON to CSV: a flat object, or an array of flat objects that share their keys, becomes
//! a table whose columns stand in the order of the first record's keys.

use vstd::prelude::*;
use crate::error::{prefixed, CliError, CliErrorView, CliResult};
use crate::filter::{applied, apply_filter, FilterFailure, FilterFailureView};
use crate::table::{csv_records, csv_text, read_records, row_view, rows_view, write_records};
use crate::text::same_text;
use crate::value::{
    all_json_of, distinct, entry_views, keys_of, lemma_array_view, lemma_object_view,
    parse_json, parsed_json, to_serde_all, views, EntryView, JsonValue, JsonView,
};

verus! {

/// The error type of `json_objects_to_csv`.
#[verifier::external_type_specification]
#[verifier::external_body]
pub struct ExFlattenError(json_objects_to_csv::Error);

/// Why the flattening stage failed, with the text that the failure reports.
#[derive(Debug, PartialEq, Eq)]
pub enum FlattenFailure {
    /// A record could not be flattened.
    Flattening(String),
    /// Two records have keys that differ but look the same once flattened.
    FlattenedKeysCollision(String),
    /// A record could not be written to the intermediate table.
    WrittingCSV(String),
    /// A record could not be parsed.
    ParsingJson(String),
    /// An input or output operation failed.
    InputOutput(String),
    /// The intermediate file could not be handed back.
    IntoFile(String),
}

/// The mathematical model of a [`FlattenFailure`].
pub enum FlattenFailureView {
    Flattening(Seq<char>),
    FlattenedKeysCollision(Seq<char>),
    WrittingCSV(Seq<char>),
    ParsingJson(Seq<char>),
    InputOutput(Seq<char>),
    IntoFile(Seq<char>),
}

impl View for FlattenFailure {
    type V = FlattenFailureView;

    open spec fn view(&self) -> FlattenFailureView {
        match self {
            FlattenFailure::Flattening(text) => FlattenFailureView::Flattening(text@),
            FlattenFailure::FlattenedKeysCollision(text) => FlattenFailureView::FlattenedKeysCollision(
                text@,
            ),
            FlattenFailure::WrittingCSV(text) => FlattenFailureView::WrittingCSV(text@),
            FlattenFailure::ParsingJson(text) => FlattenFailureView::ParsingJson(text@),
            FlattenFailure::InputOutput(text) => FlattenFailureView::InputOutput(text@),
            FlattenFailure::IntoFile(text) => FlattenFailureView::IntoFile(text@),
        }
    }
}

/// The variant of an error of `json_objects_to_csv`, with the text that it reports.
pub uninterp spec fn flatten_failure_of(err: json_objects_to_csv::Error) -> FlattenFailureView;

/// The intermediate table that `json_objects_to_csv` writes for a sequence of records, as
/// CSV text, or its failure. Its columns are the keys of all flattened records in
/// alphabetical order.
pub uninterp spec fn flattened_csv(records: Seq<JsonView>) -> Result<Seq<u8>, FlattenFailureView>;

/// Tells the variants of `json_objects_to_csv::Error` apart; each comes with the text that
/// the error it wraps displays, the one without a wrapped error with its own text.
#[verifier::external_body]
pub(crate) fn flatten_failure(err: &json_objects_to_csv::Error) -> (r: FlattenFailure)
    ensures
        r@ == flatten_failure_of(*err),
{
    match err {
        json_objects_to_csv::Error::Flattening(e) => FlattenFailure::Flattening(e.to_string()),
        json_objects_to_csv::Error::FlattenedKeysCollision => {
            FlattenFailure::FlattenedKeysCollision(err.to_string())
        },
        json_objects_to_csv::Error::WrittingCSV(e) => FlattenFailure::WrittingCSV(e.to_string()),
        json_objects_to_csv::Error::ParsingJson(e) => FlattenFailure::ParsingJson(e.to_string()),
        json_objects_to_csv::Error::InputOutput(e) => FlattenFailure::InputOutput(e.to_string()),
        json_objects_to_csv::Error::IntoFile(e) => FlattenFailure::IntoFile(e.error().to_string()),
    }
}

/// `json_objects_to_csv::Json2Csv::convert_from_array` with the default flattener, on a
/// CSV writer into memory: the text of the intermediate table, or the crate's error.
#[verifier::external_body]
pub(crate) fn flatten_to_csv(records: &Vec<serde_json::Value>) -> (r: Result<
    Vec<u8>,
    json_objects_to_csv::Error,
>)
    ensures
        match r {
            Ok(data) => flattened_csv(all_json_of(records@)) == Ok::<Seq<u8>, FlattenFailureView>(
                data@,
            ),
            Err(e) => flattened_csv(all_json_of(records@)) == Err::<Seq<u8>, FlattenFailureView>(
                flatten_failure_of(e),
            ),
        },
{
    let mut out: Vec<u8> = Vec::new();
    let writer = csv::WriterBuilder::new().from_writer(&mut out);
    let flattener = json_objects_to_csv::flatten_json_object::Flattener::new();
    json_objects_to_csv::Json2Csv::new(flattener).convert_from_array(records, writer)?;
    Ok(out)
}

/// The error that a failure of the flattening stage is reported as.
pub open spec fn flatten_error_of(failure: FlattenFailureView) -> CliErrorView {
    match failure {
        FlattenFailureView::Flattening(text) => CliErrorView::Other("Flattening error: "@ + text),
        FlattenFailureView::FlattenedKeysCollision(text) => CliErrorView::Other(
            "Flattening Key Collision error: "@ + text,
        ),
        FlattenFailureView::WrittingCSV(text) => CliErrorView::Other("Writing CSV error: "@ + text),
        FlattenFailureView::ParsingJson(text) => CliErrorView::Other("Parsing JSON error: "@ + text),
        FlattenFailureView::InputOutput(text) => CliErrorView::Io(text),
        FlattenFailureView::IntoFile(text) => CliErrorView::Io(text),
    }
}

/// The error that a failure of the filter stage is reported as.
pub open spec fn filter_error_of(filter: Seq<char>, failure: FilterFailureView) -> CliErrorView {
    match failure {
        FilterFailureView::Unsupported => CliErrorView::Other(
            "Unsupported jaq filter: "@ + filter,
        ),
        FilterFailureView::LeastInteger => CliErrorView::Other(
            "JSON data holds an integer that a jaq filter cannot take"@,
        ),
        FilterFailureView::Parse => CliErrorView::Other("Failed to parse jaq filter: "@ + filter),
        FilterFailureView::Compile => CliErrorView::Other(
            "Failed to compile jaq filter: "@ + filter,
        ),
        FilterFailureView::Evaluate(text) => CliErrorView::Other(
            "Failed to evaluate jaq filter: "@ + text,
        ),
    }
}

/// Reports a failure of the flattening stage.
pub fn report_flatten_failure(failure: FlattenFailure) -> (r: CliError)
    ensures
        r@ == flatten_error_of(failure@),
{
    match failure {
        FlattenFailure::Flattening(text) => CliError::Other(
            prefixed("Flattening error: ", text.as_str()),
        ),
        FlattenFailure::FlattenedKeysCollision(text) => CliError::Other(
            prefixed("Flattening Key Collision error: ", text.as_str()),
        ),
        FlattenFailure::WrittingCSV(text) => CliError::Other(
            prefixed("Writing CSV error: ", text.as_str()),
        ),
        FlattenFailure::ParsingJson(text) => CliError::Other(
            prefixed("Parsing JSON error: ", text.as_str()),
        ),
        FlattenFailure::InputOutput(text) => CliError::Io(text),
        FlattenFailure::IntoFile(text) => CliError::Io(text),
    }
}

/// Reports a failure of the filter stage for the expression `filter`.
pub fn report_filter_failure(filter: &str, failure: FilterFailure) -> (r: CliError)
    ensures
        r@ == filter_error_of(filter@, failure@),
{
    match failure {
        FilterFailure::Unsupported => CliError::Other(
            prefixed("Unsupported jaq filter: ", filter),
        ),
        FilterFailure::LeastInteger => CliError::other(
            "JSON data holds an integer that a jaq filter cannot take",
        ),
        FilterFailure::Parse => CliError::Other(prefixed("Failed to parse jaq filter: ", filter)),
        FilterFailure::Compile => CliError::Other(
            prefixed("Failed to compile jaq filter: ", filter),
        ),
        FilterFailure::Evaluate(text) => CliError::Other(
            prefixed("Failed to evaluate jaq filter: ", text.as_str()),
        ),
    }
}

impl CliError {
    /// The error that an error of `json_objects_to_csv` is reported as: an input or output
    /// failure stays one, every other failure names the stage and keeps its text.
    pub fn from(err: json_objects_to_csv::Error) -> (r: CliError)
        ensures
            r@ == flatten_error_of(flatten_failure_of(err)),
    {
        report_flatten_failure(flatten_failure(&err))
    }
}

/// Where the text of a document was read from.
#[derive(Clone, Copy, PartialEq, Eq, Structural, Debug)]
pub enum Source {
    Stdin,
    File,
}

/// The error for a text that is no JSON document, with the message of the parser.
pub open spec fn parse_error_of(source: Source, message: Seq<char>) -> CliErrorView {
    match source {
        Source::Stdin => CliErrorView::Other("Failed to parse JSON from stdin: "@ + message),
        Source::File => CliErrorView::Other("Failed to parse JSON from file: "@ + message),
    }
}

/// The document that a text holds, or the error for a text that is no JSON document.
pub open spec fn document_of(data: Seq<u8>, source: Source) -> Result<JsonView, CliErrorView> {
    match parsed_json(data) {
        Ok(value) => Ok(value),
        Err(message) => Err(parse_error_of(source, message)),
    }
}

/// Parses the text of a document that was read from `source`. The document that comes
/// back is well formed.
pub fn parse_input(data: &[u8], source: Source) -> (r: CliResult<JsonValue>)
    ensures
        match r {
            Ok(value) => document_of(data@, source) == Ok::<JsonView, CliErrorView>(value@)
                && value@.wf(),
            Err(e) => document_of(data@, source) == Err::<JsonView, CliErrorView>(e@),
        },
{
    match parse_json(data) {
        Ok(value) => Ok(value),
        Err(message) => match source {
            Source::Stdin => Err(
                CliError::Other(prefixed("Failed to parse JSON from stdin: ", message.as_str())),
            ),
            Source::File => Err(
                CliError::Other(prefixed("Failed to parse JSON from file: ", message.as_str())),
            ),
        },
    }
}

/// The error for a document that holds no data.
pub open spec fn no_data() -> CliErrorView {
    CliErrorView::Other("No JSON data found."@)
}

/// The value that the outputs of a filter stand for: the first output where that is an
/// array, so that a filter that selects a list and one that yields its items behave alike;
/// else the array of all outputs.
pub open spec fn collected(outputs: Seq<JsonView>) -> JsonView {
    if outputs.len() > 0 && outputs[0] is Array {
        outputs[0]
    } else {
        JsonView::Array(outputs)
    }
}

/// The value that is converted: the document itself without a filter, else what the
/// filter's outputs stand for, or the error of the filter stage.
pub open spec fn filtered(value: JsonView, filter: Option<Seq<char>>) -> Result<
    JsonView,
    CliErrorView,
> {
    match filter {
        None => Ok(value),
        Some(expression) => match applied(expression, value) {
            Ok(outputs) => Ok(collected(outputs)),
            Err(failure) => Err(filter_error_of(expression, failure)),
        },
    }
}

/// The entries of the first record: of the first item of an array, which has to be an
/// object, or of the object that the value is; an error that names the expected shape
/// for any other value, and for a first record without entries.
pub open spec fn first_record(value: JsonView) -> Result<Seq<EntryView>, CliErrorView> {
    match value {
        JsonView::Array(items) => if items.len() > 0 && items[0] is Object {
            nonempty(items[0]->Object_0)
        } else {
            Err(CliErrorView::Other("Expected an array of objects in JSON"@))
        },
        JsonView::Object(entries) => nonempty(entries),
        _ => Err(CliErrorView::Other("Expected a JSON object"@)),
    }
}

/// The entries of a record that has entries.
pub open spec fn nonempty(entries: Seq<EntryView>) -> Result<Seq<EntryView>, CliErrorView> {
    if entries.len() == 0 {
        Err(CliErrorView::Other("Expected a non-empty JSON object"@))
    } else {
        Ok(entries)
    }
}

/// The order of the columns: the keys of the first record in their order.
pub open spec fn header_order_of(value: JsonView) -> Result<Seq<Seq<char>>, CliErrorView> {
    match first_record(value) {
        Ok(entries) => Ok(keys_of(entries)),
        Err(e) => Err(e),
    }
}

/// The records of a value: the items of an array, else the value alone.
pub open spec fn record_set(value: JsonView) -> Seq<JsonView> {
    match value {
        JsonView::Array(items) => items,
        _ => seq![value],
    }
}

/// The first index at or after `start` at which `names` holds `name`.
pub open spec fn position_from(names: Seq<Seq<char>>, name: Seq<char>, start: int) -> Option<int>
    decreases names.len() - start,
{
    if start < 0 || start >= names.len() {
        None
    } else if names[start] == name {
        Some(start)
    } else {
        position_from(names, name, start + 1)
    }
}

/// The first index at which `names` holds `name`.
pub open spec fn position(names: Seq<Seq<char>>, name: Seq<char>) -> Option<int> {
    position_from(names, name, 0)
}

/// The error for a column of the order that the table does not have.
pub open spec fn unknown_column(name: Seq<char>) -> CliErrorView {
    CliErrorView::Other(
        "Selector name '"@ + name + "' does not exist as a named header in the given CSV data."@,
    )
}

/// The first name of `order`, at or after `start`, that `header` does not hold.
pub open spec fn first_missing(order: Seq<Seq<char>>, header: Seq<Seq<char>>, start: int) -> Option<
    int,
>
    decreases order.len() - start,
{
    if start < 0 || start >= order.len() {
        None
    } else if position(header, order[start]) is None {
        Some(start)
    } else {
        first_missing(order, header, start + 1)
    }
}

/// For each name of `order`, the index of the column of `header` with that name.
pub open spec fn selection_of(order: Seq<Seq<char>>, header: Seq<Seq<char>>) -> Result<
    Seq<int>,
    CliErrorView,
> {
    match first_missing(order, header, 0) {
        Some(k) => Err(unknown_column(order[k])),
        None => Ok(Seq::new(order.len(), |k: int| position(header, order[k])->0)),
    }
}

/// The error for a record that lacks a selected field.
pub open spec fn short_record() -> CliErrorView {
    CliErrorView::Other("CSV record has fewer fields than the header row"@)
}

/// Whether a record has every field that the selection asks for.
pub open spec fn covers(row: Seq<Seq<char>>, selection: Seq<int>) -> bool {
    forall|k: int| 0 <= k < selection.len() ==> 0 <= #[trigger] selection[k] < row.len()
}

/// The fields of a record that the selection asks for, in the order of the selection.
pub open spec fn selected(row: Seq<Seq<char>>, selection: Seq<int>) -> Seq<Seq<char>> {
    Seq::new(selection.len(), |k: int| row[selection[k]])
}

/// The header row of a table: its first row, or no column at all for an empty table.
pub open spec fn header_of(table: Seq<Seq<Seq<char>>>) -> Seq<Seq<char>> {
    if table.len() > 0 {
        table[0]
    } else {
        Seq::empty()
    }
}

/// The table with its columns permuted into `order`: the header row is `order` itself, and
/// each record after the table's header row gives one record that holds, for each name of
/// `order`, the field of the first column with that name. An error where the table lacks
/// a column of `order`, or a record lacks a selected field.
pub open spec fn reordered(order: Seq<Seq<char>>, table: Seq<Seq<Seq<char>>>) -> Result<
    Seq<Seq<Seq<char>>>,
    CliErrorView,
> {
    match selection_of(order, header_of(table)) {
        Err(e) => Err(e),
        Ok(selection) => if exists|i: int|
            1 <= i < table.len() && !covers(#[trigger] table[i], selection) {
            Err(short_record())
        } else {
            Ok(
                Seq::new(
                    if table.len() > 0 {
                        table.len()
                    } else {
                        1
                    },
                    |i: int|
                        if i == 0 {
                            order
                        } else {
                            selected(table[i], selection)
                        },
                ),
            )
        },
    }
}

/// The final CSV text for the records of a value whose columns stand in `order`: the
/// records are flattened into the intermediate table, which is read back, permuted and
/// written; a failure of any stage ends the conversion.
pub open spec fn table_csv(order: Seq<Seq<char>>, records: Seq<JsonView>) -> Result<
    Seq<u8>,
    CliErrorView,
> {
    match flattened_csv(records) {
        Err(failure) => Err(flatten_error_of(failure)),
        Ok(intermediate) => match csv_records(intermediate, 44u8) {
            Err(message) => Err(CliErrorView::Csv(message)),
            Ok(table) => match reordered(order, table) {
                Err(e) => Err(e),
                Ok(rows) => match csv_text(rows) {
                    Ok(data) => Ok(data),
                    Err(message) => Err(CliErrorView::Csv(message)),
                },
            },
        },
    }
}

/// The whole conversion of a document, with or without a filter.
pub open spec fn csv_of(value: JsonView, filter: Option<Seq<char>>) -> Result<
    Seq<u8>,
    CliErrorView,
> {
    if value is Null {
        Err(no_data())
    } else {
        match filtered(value, filter) {
            Err(e) => Err(e),
            Ok(chosen) => if chosen is Null {
                Err(no_data())
            } else {
                match header_order_of(chosen) {
                    Err(e) => Err(e),
                    Ok(order) => table_csv(order, record_set(chosen)),
                }
            },
        }
    }
}

/// The value that the outputs of a filter stand for.
pub fn collect_outputs(outputs: Vec<JsonValue>) -> (r: JsonValue)
    ensures
        r@ == collected(views(outputs@)),
{
    let mut outputs = outputs;
    let ghost all = outputs@;
    let first_is_array = outputs.len() > 0 && match &outputs[0] {
        JsonValue::Array(_) => true,
        _ => false,
    };
    if first_is_array {
        let first = outputs.remove(0);
        assert(first == all[0]);
        first
    } else {
        proof {
            lemma_array_view(outputs);
        }
        JsonValue::Array(outputs)
    }
}

/// The keys of the entries of an object, in their order.
pub fn keys(entries: &Vec<(String, JsonValue)>) -> (r: Vec<String>)
    ensures
        row_view(r@) == keys_of(entry_views(entries@)),
{
    let mut out: Vec<String> = Vec::new();
    let mut i: usize = 0;
    while i < entries.len()
        invariant
            i <= entries.len(),
            out.len() == i,
            forall|k: int| 0 <= k < i ==> (#[trigger] out[k])@ == entries[k].0@,
        decreases entries.len() - i,
    {
        out.push(entries[i].0.clone());
        i += 1;
    }
    assert(row_view(out@) =~= keys_of(entry_views(entries@)));
    out
}

/// The keys of a record that has entries, else the error for an empty record.
fn nonempty_keys(entries: &Vec<(String, JsonValue)>) -> (r: CliResult<Vec<String>>)
    ensures
        match r {
            Ok(order) => nonempty(entry_views(entries@)) == Ok::<Seq<EntryView>, CliErrorView>(
                entry_views(entries@),
            ) && row_view(order@) == keys_of(entry_views(entries@)),
            Err(e) => nonempty(entry_views(entries@)) == Err::<Seq<EntryView>, CliErrorView>(e@),
        },
{
    if entries.len() == 0 {
        Err(CliError::other("Expected a non-empty JSON object"))
    } else {
        Ok(keys(entries))
    }
}

/// Checks the shape of the value and gives the order of the columns: the keys of the
/// first record in their order.
pub fn header_order(value: &JsonValue) -> (r: CliResult<Vec<String>>)
    ensures
        match r {
            Ok(order) => header_order_of(value@) == Ok::<Seq<Seq<char>>, CliErrorView>(
                row_view(order@),
            ),
            Err(e) => header_order_of(value@) == Err::<Seq<Seq<char>>, CliErrorView>(e@),
        },
{
    match value {
        JsonValue::Array(items) => {
            proof {
                lemma_array_view(*items);
            }
            if items.len() > 0 {
                match &items[0] {
                    JsonValue::Object(entries) => {
                        proof {
                            lemma_object_view(*entries);
                        }
                        nonempty_keys(entries)
                    },
                    _ => Err(CliError::other("Expected an array of objects in JSON")),
                }
            } else {
                Err(CliError::other("Expected an array of objects in JSON"))
            }
        },
        JsonValue::Object(entries) => {
            proof {
                lemma_object_view(*entries);
            }
            nonempty_keys(entries)
        },
        _ => Err(CliError::other("Expected a JSON object")),
    }
}

/// The records of a value: the items of an array, else the value alone.
pub fn into_records(value: JsonValue) -> (r: Vec<JsonValue>)
    ensures
        views(r@) == record_set(value@),
{
    match value {
        JsonValue::Array(items) => {
            proof {
                lemma_array_view(items);
            }
            items
        },
        other => {
            let records = vec![other];
            assert(views(records@) =~= seq![other@]);
            records
        },
    }
}

/// The first index at which `names` holds `name`.
pub fn find_column(names: &Vec<String>, name: &str) -> (r: Option<usize>)
    ensures
        match r {
            Some(i) => position(row_view(names@), name@) == Some(i as int) && i < names.len(),
            None => position(row_view(names@), name@) is None,
        },
{
    let ghost model = row_view(names@);
    let mut i: usize = 0;
    while i < names.len()
        invariant
            i <= names.len(),
            model == row_view(names@),
            position(model, name@) == position_from(model, name@, i as int),
        decreases names.len() - i,
    {
        assert(model[i as int] == names[i as int]@);
        if same_text(names[i].as_str(), name) {
            return Some(i);
        }
        i += 1;
    }
    None
}

/// The models of the indices of a selection.
pub open spec fn index_view(selection: Seq<usize>) -> Seq<int> {
    Seq::new(selection.len(), |k: int| selection[k] as int)
}

/// The message for a column of the order that the table does not have.
fn unknown_column_error(name: &str) -> (r: CliError)
    ensures
        r@ == unknown_column(name@),
{
    let mut message = prefixed("Selector name '", name);
    vstd::string::StringExecFns::append(
        &mut message,
        "' does not exist as a named header in the given CSV data.",
    );
    CliError::Other(message)
}

/// For each name of `order`, the index of the first column of `header` with that name;
/// an error for the first name that `header` does not hold.
pub fn select_columns(order: &Vec<String>, header: &Vec<String>) -> (r: CliResult<Vec<usize>>)
    ensures
        match r {
            Ok(selection) => selection_of(row_view(order@), row_view(header@)) == Ok::<
                Seq<int>,
                CliErrorView,
            >(index_view(selection@)) && forall|k: int|
                0 <= k < selection.len() ==> #[trigger] selection[k] < header.len(),
            Err(e) => selection_of(row_view(order@), row_view(header@)) == Err::<
                Seq<int>,
                CliErrorView,
            >(e@),
        },
{
    let ghost names = row_view(order@);
    let ghost columns = row_view(header@);
    let mut selection: Vec<usize> = Vec::new();
    let mut k: usize = 0;
    while k < order.len()
        invariant
            k <= order.len(),
            selection.len() == k,
            names == row_view(order@),
            columns == row_view(header@),
            first_missing(names, columns, 0) == first_missing(names, columns, k as int),
            forall|j: int|
                0 <= j < k ==> position(columns, names[j]) == Some(
                    (#[trigger] selection[j]) as int,
                ) && selection[j] < header.len(),
        decreases order.len() - k,
    {
        assert(names[k as int] == order[k as int]@);
        match find_column(header, order[k].as_str()) {
            Some(i) => selection.push(i),
            None => {
                return Err(unknown_column_error(order[k].as_str()));
            },
        }
        k += 1;
    }
    assert(index_view(selection@) =~= Seq::new(
        names.len(),
        |j: int| position(columns, names[j])->0,
    ));
    Ok(selection)
}

/// The fields of a record that the selection asks for, in the order of the selection, or
/// `None` where the record lacks one of them.
pub fn select_fields(row: &Vec<String>, selection: &Vec<usize>) -> (r: Option<Vec<String>>)
    ensures
        match r {
            Some(fields) => covers(row_view(row@), index_view(selection@)) && row_view(fields@)
                == selected(row_view(row@), index_view(selection@)),
            None => !covers(row_view(row@), index_view(selection@)),
        },
{
    let ghost model = row_view(row@);
    let ghost indices = index_view(selection@);
    let mut fields: Vec<String> = Vec::new();
    let mut k: usize = 0;
    while k < selection.len()
        invariant
            k <= selection.len(),
            fields.len() == k,
            model == row_view(row@),
            indices == index_view(selection@),
            forall|j: int| 0 <= j < k ==> 0 <= #[trigger] indices[j] < model.len(),
            forall|j: int| 0 <= j < k ==> (#[trigger] fields[j])@ == model[indices[j]],
        decreases selection.len() - k,
    {
        assert(indices[k as int] == selection[k as int]);
        if selection[k] >= row.len() {
            return None;
        }
        fields.push(row[selection[k]].clone());
        k += 1;
    }
    assert(row_view(fields@) =~= selected(model, indices));
    Some(fields)
}

/// A copy of a record.
fn copy_row(row: &Vec<String>) -> (r: Vec<String>)
    ensures
        row_view(r@) == row_view(row@),
{
    let mut out: Vec<String> = Vec::new();
    let mut i: usize = 0;
    while i < row.len()
        invariant
            i <= row.len(),
            out.len() == i,
            forall|k: int| 0 <= k < i ==> (#[trigger] out[k])@ == row[k]@,
        decreases row.len() - i,
    {
        out.push(row[i].clone());
        i += 1;
    }
    assert(row_view(out@) =~= row_view(row@));
    out
}

/// Permutes the columns of a table into `order`. The first row of `table` is its header
/// row; the result begins with `order` as its header row.
pub fn reorder(order: &Vec<String>, table: &Vec<Vec<String>>) -> (r: CliResult<Vec<Vec<String>>>)
    ensures
        match r {
            Ok(rows) => reordered(row_view(order@), rows_view(table@)) == Ok::<
                Seq<Seq<Seq<char>>>,
                CliErrorView,
            >(rows_view(rows@)),
            Err(e) => reordered(row_view(order@), rows_view(table@)) == Err::<
                Seq<Seq<Seq<char>>>,
                CliErrorView,
            >(e@),
        },
{
    let ghost names = row_view(order@);
    let ghost model = rows_view(table@);
    let empty: Vec<String> = Vec::new();
    let header = if table.len() > 0 {
        &table[0]
    } else {
        &empty
    };
    assert(row_view(header@) =~= header_of(model));
    let selection = match select_columns(order, header) {
        Ok(selection) => selection,
        Err(e) => return Err(e),
    };
    let ghost indices = index_view(selection@);
    let mut rows: Vec<Vec<String>> = Vec::new();
    rows.push(copy_row(order));
    let mut i: usize = 1;
    while i < table.len()
        invariant
            1 <= i,
            table.len() > 0 ==> i <= table.len(),
            table.len() == 0 ==> i == 1,
            rows.len() == i,
            names == row_view(order@),
            model == rows_view(table@),
            indices == index_view(selection@),
            selection_of(names, header_of(model)) == Ok::<Seq<int>, CliErrorView>(indices),
            row_view(rows[0]@) == names,
            forall|j: int| 1 <= j < i ==> covers(#[trigger] model[j], indices),
            forall|j: int|
                1 <= j < i ==> row_view((#[trigger] rows[j])@) == selected(model[j], indices),
        decreases table.len() - i,
    {
        assert(model[i as int] == row_view(table[i as int]@));
        match select_fields(&table[i], &selection) {
            Some(fields) => rows.push(fields),
            None => {
                assert(!covers(model[i as int], indices));
                return Err(CliError::other("CSV record has fewer fields than the header row"));
            },
        }
        i += 1;
    }
    proof {
        assert forall|j: int| 0 <= j < rows.len() implies rows_view(rows@)[j] == if j == 0 {
            names
        } else {
            selected(model[j], indices)
        } by {
            let _ = rows[j];
        }
        assert(rows_view(rows@) =~= Seq::new(
            if model.len() > 0 {
                model.len()
            } else {
                1
            },
            |j: int|
                if j == 0 {
                    names
                } else {
                    selected(model[j], indices)
                },
        ));
    }
    Ok(rows)
}

/// The expression of a filter as a sequence of characters.
pub open spec fn filter_view(filter: Option<&str>) -> Option<Seq<char>> {
    match filter {
        Some(expression) => Some(expression@),
        None => None,
    }
}

/// Whether every value of a sequence is well formed.
pub open spec fn all_wf(values: Seq<JsonView>) -> bool {
    forall|i: int| 0 <= i < values.len() ==> (#[trigger] values[i]).wf()
}

/// Converts records to the final CSV text, with the columns in `order`: the records are
/// flattened into the intermediate table, which is read back, permuted and written.
pub fn convert_records(order: &Vec<String>, records: &Vec<JsonValue>) -> (r: CliResult<Vec<u8>>)
    requires
        all_wf(views(records@)),
    ensures
        match r {
            Ok(data) => table_csv(row_view(order@), views(records@)) == Ok::<
                Seq<u8>,
                CliErrorView,
            >(data@),
            Err(e) => table_csv(row_view(order@), views(records@)) == Err::<Seq<u8>, CliErrorView>(
                e@,
            ),
        },
{
    proof {
        assert forall|i: int| 0 <= i < records.len() implies (#[trigger] records[i])@.wf() by {
            assert(views(records@)[i] == records[i]@);
        }
    }
    let values = to_serde_all(records);
    let intermediate = match flatten_to_csv(&values) {
        Ok(data) => data,
        Err(e) => return Err(CliError::from(e)),
    };
    let table = match read_records(intermediate.as_slice(), 44u8) {
        Ok(table) => table,
        Err(message) => return Err(CliError::Csv(message)),
    };
    let rows = match reorder(order, &table) {
        Ok(rows) => rows,
        Err(e) => return Err(e),
    };
    match write_records(&rows) {
        Ok(data) => Ok(data),
        Err(message) => Err(CliError::Csv(message)),
    }
}

/// Tells whether a value is `null`.
pub fn is_null(value: &JsonValue) -> (r: bool)
    ensures
        r == (value@ is Null),
{
    match value {
        JsonValue::Null => true,
        _ => false,
    }
}

/// Converts a JSON document to CSV text. With a filter, the filter is applied to the
/// document first and what it yields is converted. The value that is converted has to be
/// a non-empty object, or an array whose first item is one; the keys of that first record,
/// in their order, are the header row of the result.
pub fn run(value: JsonValue, filter: Option<&str>) -> (r: CliResult<Vec<u8>>)
    requires
        value@.wf(),
    ensures
        match r {
            Ok(data) => csv_of(value@, filter_view(filter)) == Ok::<Seq<u8>, CliErrorView>(data@),
            Err(e) => csv_of(value@, filter_view(filter)) == Err::<Seq<u8>, CliErrorView>(e@),
        },
{
    if is_null(&value) {
        return Err(CliError::other("No JSON data found."));
    }
    let chosen = match filter {
        None => value,
        Some(expression) => match apply_filter(expression, &value) {
            Err(failure) => return Err(report_filter_failure(expression, failure)),
            Ok(outputs) => {
                proof {
                    assert forall|i: int| 0 <= i < outputs.len() implies (#[trigger] views(
                        outputs@,
                    )[i]).wf() by {
                        assert(views(outputs@)[i] == outputs[i]@);
                    }
                }
                collect_outputs(outputs)
            },
        },
    };
    assert(chosen@.wf());
    if is_null(&chosen) {
        return Err(CliError::other("No JSON data found."));
    }
    let order = match header_order(&chosen) {
        Ok(order) => order,
        Err(e) => return Err(e),
    };
    let records = into_records(chosen);
    assert(all_wf(views(records@)));
    convert_records(&order, &records)
}

/// What `position_from` finds is the first index at or after `start` that holds the name;
/// where it finds nothing, no index at or after `start` holds the name.
pub proof fn lemma_position_is_first(names: Seq<Seq<char>>, name: Seq<char>, start: int)
    requires
        0 <= start,
    ensures
        match position_from(names, name, start) {
            Some(i) => start <= i < names.len() && names[i] == name && forall|j: int|
                start <= j < i ==> names[j] != name,
            None => forall|j: int| start <= j < names.len() ==> names[j] != name,
        },
    decreases names.len() - start,
{
    if start < names.len() && names[start] != name {
        lemma_position_is_first(names, name, start + 1);
    }
}

/// Where `first_missing` finds nothing, the table holds every name of the order at or
/// after `start`.
pub proof fn lemma_nothing_missing(order: Seq<Seq<char>>, header: Seq<Seq<char>>, start: int)
    requires
        0 <= start,
    ensures
        first_missing(order, header, start) is None <==> forall|k: int|
            start <= k < order.len() ==> position(header, #[trigger] order[k]) is Some,
    decreases order.len() - start,
{
    if start < order.len() {
        lemma_nothing_missing(order, header, start + 1);
        if position(header, order[start]) is Some {
            assert forall|k: int| start <= k < order.len() && (forall|k2: int|
                start + 1 <= k2 < order.len() ==> position(header, #[trigger] order[k2])
                    is Some) implies position(header, #[trigger] order[k]) is Some by {
                if k > start {
                    assert(position(header, order[k]) is Some);
                }
            }
        }
    }
}

/// The header row of a permuted table is the order that was asked for, name by name:
/// whatever order the intermediate table had, the final table begins with the keys of the
/// first record in their own order, and has a record for each record of the table.
pub proof fn lemma_header_row_is_the_order(order: Seq<Seq<char>>, table: Seq<Seq<Seq<char>>>)
    requires
        reordered(order, table) is Ok,
    ensures
        reordered(order, table)->Ok_0.len() >= 1,
        reordered(order, table)->Ok_0[0] == order,
        table.len() > 0 ==> reordered(order, table)->Ok_0.len() == table.len(),
        forall|i: int|
            1 <= i < reordered(order, table)->Ok_0.len() ==> (#[trigger] reordered(
                order,
                table,
            )->Ok_0[i]).len() == order.len(),
{
}

/// The header row that a conversion writes: where the conversion of a document without a
/// filter succeeds, its text is what the `csv` crate writes for a table whose first row
/// holds exactly the keys of the document's first record, in their order.
pub proof fn lemma_csv_header_is_first_key_order(value: JsonView)
    requires
        csv_of(value, None) is Ok,
    ensures
        first_record(value) is Ok,
        exists|rows: Seq<Seq<Seq<char>>>|
            rows.len() >= 1 && rows[0] == keys_of(first_record(value)->Ok_0) && #[trigger] csv_text(
                rows,
            ) == Ok::<Seq<u8>, Seq<char>>(csv_of(value, None)->Ok_0),
{
    let order = header_order_of(value)->Ok_0;
    let records = record_set(value);
    let intermediate = flattened_csv(records)->Ok_0;
    let table = csv_records(intermediate, 44u8)->Ok_0;
    let rows = reordered(order, table)->Ok_0;
    lemma_header_row_is_the_order(order, table);
    assert(csv_text(rows) == Ok::<Seq<u8>, Seq<char>>(csv_of(value, None)->Ok_0));
}

/// Permuting a table twice into the same order gives what permuting it once gives, header
/// row and records alike, where no name occurs twice in the order.
pub proof fn lemma_reorder_is_idempotent(order: Seq<Seq<char>>, table: Seq<Seq<Seq<char>>>)
    requires
        distinct(order),
        reordered(order, table) is Ok,
    ensures
        reordered(order, reordered(order, table)->Ok_0) == reordered(order, table),
{
    let once = reordered(order, table)->Ok_0;
    lemma_header_row_is_the_order(order, table);
    assert(header_of(once) == order);
    assert forall|k: int| 0 <= k < order.len() implies position(order, #[trigger] order[k])
        == Some(k) by {
        lemma_position_is_first(order, order[k], 0);
    }
    lemma_nothing_missing(order, order, 0);
    let identity = Seq::new(order.len(), |k: int| position(order, order[k])->0);
    assert(selection_of(order, order) == Ok::<Seq<int>, CliErrorView>(identity));
    assert forall|i: int| 1 <= i < once.len() implies covers(#[trigger] once[i], identity)
        && selected(once[i], identity) == once[i] by {
        assert(once[i].len() == order.len());
        assert forall|k: int| 0 <= k < identity.len() implies 0 <= #[trigger] identity[k]
            < once[i].len() by {
            assert(position(order, order[k]) == Some(k));
        }
        assert(selected(once[i], identity) =~= once[i]);
    }
    let twice = reordered(order, once)->Ok_0;
    assert(reordered(order, once) is Ok);
    assert(twice =~= once);
}

/// Two conversions of the same document with the same filter end alike: what `run`
/// returns is a function of its arguments, text and error both.
pub proof fn lemma_conversion_is_repeatable(
    value: JsonView,
    filter: Option<Seq<char>>,
    first: Result<Seq<u8>, CliErrorView>,
    second: Result<Seq<u8>, CliErrorView>,
)
    requires
        first == csv_of(value, filter),
        second == csv_of(value, filter),
    ensures
        first == second,
{
}

/// A document that is `null` holds no data, with or without a filter; an empty array has
/// no first record. Either way the conversion fails, and nothing is written.
pub proof fn lemma_no_data_fails(value: JsonView, filter: Option<Seq<char>>)
    ensures
        value is Null ==> csv_of(value, filter) == Err::<Seq<u8>, CliErrorView>(no_data()),
        value == JsonView::Array(Seq::empty()) ==> csv_of(value, None) == Err::<
            Seq<u8>,
            CliErrorView,
        >(CliErrorView::Other("Expected an array of objects in JSON"@)),
{
}

} // verus!
