//! CSV to newline-delimited JSON: a type is inferred for each column from the profile of the
//! whole data set, then every record becomes the text of one JSON object.

use vstd::prelude::*;
use vstd::string::StringExecFns;
use crate::error::{CliError, CliErrorView, CliResult};
use crate::table::{csv_records, read_records, row_view, rows_view, trim_record, trimmed_row};
use crate::text::{
    ascii_lower, escaped, is_whitespace, lowered, push_escaped, same_text, trim_start_of,
};
use crate::value::{
    entry_views, get, member, number_as_u64, number_u64, views, EntryView, JsonValue, JsonView,
};

verus! {

/// The JSON type that the fields of a column are emitted as.
#[derive(Clone, Copy, PartialEq, Eq, Structural, Debug)]
pub enum JsonlType {
    Boolean,
    String,
    Number,
    Integer,
    Null,
}

/// The error of [`JsonlType::from_str`]: the name is that of no type.
#[derive(Clone, Copy, PartialEq, Eq, Structural, Debug)]
pub enum ParseError {
    VariantNotFound,
}

/// The type that a name stands for, whatever the case of its ASCII letters.
pub open spec fn type_named(name: Seq<char>) -> Option<JsonlType> {
    if lowered(name) == lowered("Boolean"@) {
        Some(JsonlType::Boolean)
    } else if lowered(name) == lowered("String"@) {
        Some(JsonlType::String)
    } else if lowered(name) == lowered("Number"@) {
        Some(JsonlType::Number)
    } else if lowered(name) == lowered("Integer"@) {
        Some(JsonlType::Integer)
    } else if lowered(name) == lowered("Null"@) {
        Some(JsonlType::Null)
    } else {
        None
    }
}

impl JsonlType {
    /// The type with the given name; the case of ASCII letters does not matter.
    pub fn from_str(name: &str) -> (r: Result<JsonlType, ParseError>)
        ensures
            match r {
                Ok(ty) => type_named(name@) == Some(ty),
                Err(_) => type_named(name@) is None,
            },
    {
        if name.eq_ignore_ascii_case("Boolean") {
            Ok(JsonlType::Boolean)
        } else if name.eq_ignore_ascii_case("String") {
            Ok(JsonlType::String)
        } else if name.eq_ignore_ascii_case("Number") {
            Ok(JsonlType::Number)
        } else if name.eq_ignore_ascii_case("Integer") {
            Ok(JsonlType::Integer)
        } else if name.eq_ignore_ascii_case("Null") {
            Ok(JsonlType::Null)
        } else {
            Err(ParseError::VariantNotFound)
        }
    }
}

/// The indicator character of a text: its first character after leading whitespace, in
/// ASCII lower case, or `_` where nothing is left.
pub open spec fn first_lower_char_of(s: Seq<char>) -> char {
    let rest = trim_start_of(s);
    if rest.len() == 0 {
        '_'
    } else {
        ascii_lower(rest[0])
    }
}

/// The first character of `field_str` after its leading whitespace, in ASCII lower case;
/// `_` for a field that is empty or all whitespace.
pub fn first_lower_char(field_str: &str) -> (c: char)
    ensures
        c == first_lower_char_of(field_str@),
{
    let rest = field_str.trim_start();
    let mut chars = rest.chars();
    match chars.next() {
        Some(first) => first.to_ascii_lowercase(),
        None => '_',
    }
}

/// One value of a column's domain, as far as the boolean heuristic reads it.
#[derive(Debug, PartialEq, Eq)]
pub enum DomainValue {
    /// A missing value.
    Null,
    /// A string.
    Text(String),
    /// A non-negative integer.
    Integer(u64),
    /// Anything else.
    Other,
}

/// The mathematical model of a [`DomainValue`].
pub enum DomainValueView {
    Null,
    Text(Seq<char>),
    Integer(u64),
    Other,
}

impl View for DomainValue {
    type V = DomainValueView;

    open spec fn view(&self) -> DomainValueView {
        match self {
            DomainValue::Null => DomainValueView::Null,
            DomainValue::Text(s) => DomainValueView::Text(s@),
            DomainValue::Integer(n) => DomainValueView::Integer(*n),
            DomainValue::Other => DomainValueView::Other,
        }
    }
}

/// The domain value that a JSON value is.
pub open spec fn domain_value_of(v: JsonView) -> DomainValueView {
    match v {
        JsonView::Null => DomainValueView::Null,
        JsonView::String(s) => DomainValueView::Text(s),
        JsonView::Number(n) => match number_u64(n) {
            Some(u) => DomainValueView::Integer(u),
            None => DomainValueView::Other,
        },
        _ => DomainValueView::Other,
    }
}

/// The domain values that a sequence of JSON values are.
pub open spec fn domain_values_of(values: Seq<JsonView>) -> Seq<DomainValueView> {
    Seq::new(values.len(), |i: int| domain_value_of(values[i]))
}

/// The models of a sequence of domain values.
pub open spec fn domain_views(values: Seq<DomainValue>) -> Seq<DomainValueView> {
    Seq::new(values.len(), |i: int| values[i]@)
}

/// Reads a JSON value as a domain value.
pub fn domain_value(v: &JsonValue) -> (r: DomainValue)
    ensures
        r@ == domain_value_of(v@),
{
    match v {
        JsonValue::Null => DomainValue::Null,
        JsonValue::String(s) => DomainValue::Text(s.clone()),
        JsonValue::Number(n) => match number_as_u64(n) {
            Some(u) => DomainValue::Integer(u),
            None => DomainValue::Other,
        },
        _ => DomainValue::Other,
    }
}

/// The indicator character of a domain value: `_` for a missing value, the lower-cased
/// first character for a string, `1` and `0` for these two integers, `*` for anything else.
pub open spec fn indicator_of(v: DomainValueView) -> char {
    match v {
        DomainValueView::Null => '_',
        DomainValueView::Text(s) => first_lower_char_of(s),
        DomainValueView::Integer(n) => if n == 1 {
            '1'
        } else if n == 0 {
            '0'
        } else {
            '*'
        },
        DomainValueView::Other => '*',
    }
}

/// Whether an indicator reads as true.
pub open spec fn truthy(c: char) -> bool {
    c == 't' || c == '1' || c == 'y'
}

/// The indicator that reads as false beside the truthy indicator `c`.
pub open spec fn falsy_counterpart(c: char) -> char {
    if c == 't' {
        'f'
    } else if c == '1' {
        '0'
    } else {
        'n'
    }
}

/// Whether two indicators make a boolean domain: one reads as true, the other is its falsy
/// counterpart or the placeholder of a missing value.
pub open spec fn boolean_pair(a: char, b: char) -> bool {
    ||| truthy(a) && (b == falsy_counterpart(a) || b == '_')
    ||| truthy(b) && (a == falsy_counterpart(b) || a == '_')
}

/// Whether a domain makes its column boolean: it has two values and their indicators make
/// a boolean pair.
pub open spec fn boolean_domain(domain: Seq<DomainValueView>) -> bool {
    domain.len() == 2 && boolean_pair(indicator_of(domain[0]), indicator_of(domain[1]))
}

/// The indicator character of a domain value.
pub fn indicator(v: &DomainValue) -> (c: char)
    ensures
        c == indicator_of(v@),
{
    match v {
        DomainValue::Null => '_',
        DomainValue::Text(s) => first_lower_char(s.as_str()),
        DomainValue::Integer(n) => if *n == 1 {
            '1'
        } else if *n == 0 {
            '0'
        } else {
            '*'
        },
        DomainValue::Other => '*',
    }
}

/// Whether two indicators make a boolean domain.
pub fn is_boolean_pair(a: char, b: char) -> (r: bool)
    ensures
        r == boolean_pair(a, b),
{
    (a == 't' && (b == 'f' || b == '_')) || ((a == 'f' || a == '_') && b == 't') || (a == '1' && (b
        == '0' || b == '_')) || ((a == '0' || a == '_') && b == '1') || (a == 'y' && (b == 'n' || b
        == '_')) || ((a == 'n' || a == '_') && b == 'y')
}

/// Whether a domain makes its column boolean.
pub fn is_boolean_domain(domain: &Vec<DomainValue>) -> (r: bool)
    ensures
        r == boolean_domain(domain_views(domain@)),
{
    if domain.len() == 2 {
        let first = indicator(&domain[0]);
        let second = indicator(&domain[1]);
        is_boolean_pair(first, second)
    } else {
        false
    }
}

/// What the profiler reports of one column: the primitive type it inferred, the values
/// observed where they are few, and whether a missing value was seen.
#[derive(Debug, PartialEq, Eq)]
pub struct ColumnTypeProfile {
    pub inferred_primitive: JsonlType,
    pub domain: Option<Vec<DomainValue>>,
    pub nullable_present: bool,
}

/// The mathematical model of a [`ColumnTypeProfile`].
pub struct ColumnTypeProfileView {
    pub inferred_primitive: JsonlType,
    pub domain: Option<Seq<DomainValueView>>,
    pub nullable_present: bool,
}

impl View for ColumnTypeProfile {
    type V = ColumnTypeProfileView;

    open spec fn view(&self) -> ColumnTypeProfileView {
        ColumnTypeProfileView {
            inferred_primitive: self.inferred_primitive,
            domain: match self.domain {
                Some(values) => Some(domain_views(values@)),
                None => None,
            },
            nullable_present: self.nullable_present,
        }
    }
}

/// The models of a sequence of profiles.
pub open spec fn profile_views(profiles: Seq<ColumnTypeProfile>) -> Seq<ColumnTypeProfileView> {
    Seq::new(profiles.len(), |i: int| profiles[i]@)
}

/// The primitive type that the `type` entry of a column's definition names: the type
/// named by the first item of the list, `String` where that is not the name of a type or
/// the entry is no list with a first item.
pub open spec fn primitive_of(type_entry: Option<JsonView>) -> JsonlType {
    match type_entry {
        Some(JsonView::Array(names)) => if names.len() > 0 {
            match names[0] {
                JsonView::String(name) => match type_named(name) {
                    Some(ty) => ty,
                    None => JsonlType::String,
                },
                _ => JsonlType::String,
            }
        } else {
            JsonlType::String
        },
        _ => JsonlType::String,
    }
}

/// Whether one of a list of values is the string `null`.
pub open spec fn has_null_name(names: Seq<JsonView>) -> bool {
    exists|i: int| 0 <= i < names.len() && names[i] == JsonView::String("null"@)
}

/// Whether the `type` entry of a column's definition is a list that names `null`.
pub open spec fn names_null(type_entry: Option<JsonView>) -> bool {
    match type_entry {
        Some(JsonView::Array(names)) => has_null_name(names),
        _ => false,
    }
}

/// The domain that the `enum` entry of a column's definition lists.
pub open spec fn domain_of(enum_entry: Option<JsonView>) -> Option<Seq<DomainValueView>> {
    match enum_entry {
        Some(JsonView::Array(values)) => Some(domain_values_of(values)),
        _ => None,
    }
}

/// The profile that a column's definition states, if the definition is an object.
pub open spec fn profile_of(definition: JsonView) -> Option<ColumnTypeProfileView> {
    match definition {
        JsonView::Object(fields) => Some(
            ColumnTypeProfileView {
                inferred_primitive: primitive_of(member(fields, "type"@)),
                domain: domain_of(member(fields, "enum"@)),
                nullable_present: names_null(member(fields, "type"@)),
            },
        ),
        _ => None,
    }
}

/// The error for a column whose definition is no object.
pub open spec fn no_field_map() -> CliErrorView {
    CliErrorView::Other("Cannot create field map"@)
}

/// The profiles that the definitions of the columns state, column by column; an error where
/// one definition is no object.
pub open spec fn profiles_of(properties: Seq<EntryView>) -> Result<
    Seq<ColumnTypeProfileView>,
    CliErrorView,
> {
    if exists|i: int| 0 <= i < properties.len() && profile_of(properties[i].value) is None {
        Err(no_field_map())
    } else {
        Ok(Seq::new(properties.len(), |i: int| profile_of(properties[i].value)->0))
    }
}

/// The definitions of the columns that a schema states: the entries of the object that the
/// schema holds under `properties`; an error where the schema is no object or holds no
/// object there.
pub open spec fn properties_of(schema: JsonView) -> Result<Seq<EntryView>, CliErrorView> {
    match schema {
        JsonView::Object(fields) => match member(fields, "properties"@) {
            Some(JsonView::Object(properties)) => Ok(properties),
            _ => Err(no_field_map()),
        },
        _ => Err(no_field_map()),
    }
}

/// The definitions of the columns that a schema states.
pub fn schema_properties(schema: &JsonValue) -> (r: CliResult<&Vec<(String, JsonValue)>>)
    ensures
        match r {
            Ok(properties) => properties_of(schema@) == Ok::<Seq<EntryView>, CliErrorView>(
                entry_views(properties@),
            ),
            Err(e) => properties_of(schema@) == Err::<Seq<EntryView>, CliErrorView>(e@),
        },
{
    match schema {
        JsonValue::Object(fields) => {
            proof {
                crate::value::lemma_object_view(*fields);
            }
            match get(fields, "properties") {
                Some(JsonValue::Object(properties)) => {
                    proof {
                        crate::value::lemma_object_view(*properties);
                    }
                    Ok(properties)
                },
                _ => Err(CliError::other("Cannot create field map")),
            }
        },
        _ => Err(CliError::other("Cannot create field map")),
    }
}

/// Reads the primitive type from the `type` entry of a column's definition.
pub fn read_primitive(type_entry: Option<&JsonValue>) -> (r: JsonlType)
    ensures
        r == primitive_of(
            match type_entry {
                Some(v) => Some(v@),
                None => None,
            },
        ),
{
    match type_entry {
        Some(JsonValue::Array(names)) => {
            proof {
                crate::value::lemma_array_view(*names);
            }
            if names.len() > 0 {
                match &names[0] {
                    JsonValue::String(name) => match JsonlType::from_str(name.as_str()) {
                        Ok(ty) => ty,
                        Err(_) => JsonlType::String,
                    },
                    _ => JsonlType::String,
                }
            } else {
                JsonlType::String
            }
        },
        _ => JsonlType::String,
    }
}

/// Tells whether one of a list of values is the string `null`.
pub fn list_names_null(names: &Vec<JsonValue>) -> (r: bool)
    ensures
        r == has_null_name(views(names@)),
{
    let mut i: usize = 0;
    while i < names.len()
        invariant
            i <= names.len(),
            forall|k: int| 0 <= k < i ==> views(names@)[k] != JsonView::String("null"@),
        decreases names.len() - i,
    {
        match &names[i] {
            JsonValue::String(name) => {
                if same_text(name.as_str(), "null") {
                    assert(views(names@)[i as int] == JsonView::String("null"@));
                    return true;
                }
            },
            _ => {},
        }
        i += 1;
    }
    false
}

/// Tells whether the `type` entry of a column's definition is a list that names `null`.
pub fn read_nullable(type_entry: Option<&JsonValue>) -> (r: bool)
    ensures
        r == names_null(
            match type_entry {
                Some(v) => Some(v@),
                None => None,
            },
        ),
{
    match type_entry {
        Some(JsonValue::Array(names)) => {
            proof {
                crate::value::lemma_array_view(*names);
            }
            list_names_null(names)
        },
        _ => false,
    }
}

/// Reads the domain from the `enum` entry of a column's definition.
pub fn read_domain(enum_entry: Option<&JsonValue>) -> (r: Option<Vec<DomainValue>>)
    ensures
        match r {
            Some(values) => Some(domain_views(values@)),
            None => None,
        } == domain_of(
            match enum_entry {
                Some(v) => Some(v@),
                None => None,
            },
        ),
{
    match enum_entry {
        Some(JsonValue::Array(values)) => {
            proof {
                crate::value::lemma_array_view(*values);
            }
            let mut domain: Vec<DomainValue> = Vec::new();
            let mut i: usize = 0;
            while i < values.len()
                invariant
                    i <= values.len(),
                    domain.len() == i,
                    forall|k: int| 0 <= k < i ==> (#[trigger] domain[k])@ == domain_value_of(values[k]@),
                decreases values.len() - i,
            {
                domain.push(domain_value(&values[i]));
                i += 1;
            }
            assert(domain_views(domain@) =~= domain_values_of(views(values@)));
            Some(domain)
        },
        _ => None,
    }
}

/// Reads the profile of every column from the definitions of the columns, as a schema
/// inferred from the statistics of the data states them: an object for each column, with
/// the list of its types under `type` and, where the column has few distinct values, the
/// list of these under `enum`.
pub fn profile_columns(properties: &Vec<(String, JsonValue)>) -> (r: CliResult<
    Vec<ColumnTypeProfile>,
>)
    ensures
        match r {
            Ok(profiles) => profiles_of(entry_views(properties@)) == Ok::<
                Seq<ColumnTypeProfileView>,
                CliErrorView,
            >(profile_views(profiles@)),
            Err(e) => profiles_of(entry_views(properties@)) == Err::<
                Seq<ColumnTypeProfileView>,
                CliErrorView,
            >(e@),
        },
{
    let ghost model = entry_views(properties@);
    let mut profiles: Vec<ColumnTypeProfile> = Vec::new();
    let mut i: usize = 0;
    while i < properties.len()
        invariant
            i <= properties.len(),
            profiles.len() == i,
            model == entry_views(properties@),
            forall|k: int| 0 <= k < i ==> profile_of(model[k].value) == Some((#[trigger] profiles[k])@),
        decreases properties.len() - i,
    {
        assert(model[i as int].value == properties[i as int].1@);
        match &properties[i].1 {
            JsonValue::Object(fields) => {
                proof {
                    crate::value::lemma_object_view(*fields);
                }
                let type_entry = get(fields, "type");
                let enum_entry = get(fields, "enum");
                profiles.push(
                    ColumnTypeProfile {
                        inferred_primitive: read_primitive(type_entry),
                        domain: read_domain(enum_entry),
                        nullable_present: read_nullable(type_entry),
                    },
                );
            },
            _ => {
                assert(profile_of(model[i as int].value) is None);
                return Err(CliError::other("Cannot create field map"));
            },
        }
        i += 1;
    }
    proof {
        assert forall|k: int| 0 <= k < model.len() implies profile_of(model[k].value) == Some(
            profiles[k]@,
        ) by {
            let _ = profiles[k];
        }
        assert(profile_views(profiles@) =~= Seq::new(
            model.len(),
            |k: int| profile_of(model[k].value)->0,
        ));
    }
    Ok(profiles)
}

/// The type that the fields of a column are emitted as: `Boolean` where the column's
/// domain is a boolean domain, else the primitive type that the profiler inferred.
pub open spec fn column_type_of(profile: ColumnTypeProfileView) -> JsonlType {
    match profile.domain {
        Some(domain) => if boolean_domain(domain) {
            JsonlType::Boolean
        } else {
            profile.inferred_primitive
        },
        None => profile.inferred_primitive,
    }
}

/// The types that the columns are emitted as.
pub open spec fn coercion_types(profiles: Seq<ColumnTypeProfileView>) -> Seq<JsonlType> {
    Seq::new(profiles.len(), |i: int| column_type_of(profiles[i]))
}

/// The type that the fields of a column are emitted as.
pub fn column_type(profile: &ColumnTypeProfile) -> (r: JsonlType)
    ensures
        r == column_type_of(profile@),
{
    match &profile.domain {
        Some(domain) => if is_boolean_domain(domain) {
            JsonlType::Boolean
        } else {
            profile.inferred_primitive
        },
        None => profile.inferred_primitive,
    }
}

/// The types of the columns, fixed before the first record is emitted.
#[derive(Debug, PartialEq, Eq)]
pub struct CoercionTable {
    pub types: Vec<JsonlType>,
}

/// The type of the column at `idx`, if the table covers that column.
pub open spec fn type_at(types: Seq<JsonlType>, idx: int) -> Option<JsonlType> {
    if 0 <= idx < types.len() {
        Some(types[idx])
    } else {
        None
    }
}

/// The JSON text of a field in a column of the given type. A numeric column emits the
/// field as it stands, and `null` for an empty field; a boolean column emits `true` where
/// the field's indicator reads as true, else `false`; a null column emits `null`; a string
/// column emits `null` for an empty field, else the field escaped and quoted. A column that
/// the table does not cover emits `null`.
pub open spec fn field_text(ty: Option<JsonlType>, field: Seq<char>) -> Seq<char> {
    match ty {
        Some(JsonlType::Integer) | Some(JsonlType::Number) => if field.len() == 0 {
            "null"@
        } else {
            field
        },
        Some(JsonlType::Boolean) => if truthy(first_lower_char_of(field)) {
            "true"@
        } else {
            "false"@
        },
        Some(JsonlType::Null) => "null"@,
        Some(JsonlType::String) => if field.len() == 0 {
            "null"@
        } else {
            seq!['"'] + escaped(field) + seq!['"']
        },
        None => "null"@,
    }
}

/// One member of a JSON object: the key in quotes, a colon, the value.
pub open spec fn member_text(header: Seq<char>, value: Seq<char>) -> Seq<char> {
    seq!['"'] + header + seq!['"', ':'] + value
}

/// The first `n` members of the object for a record, joined by commas.
pub open spec fn members_text(
    headers: Seq<Seq<char>>,
    types: Seq<JsonlType>,
    row: Seq<Seq<char>>,
    n: int,
) -> Seq<char>
    decreases n,
{
    if n <= 0 {
        Seq::empty()
    } else {
        members_text(headers, types, row, n - 1) + (if n > 1 {
            seq![',']
        } else {
            Seq::empty()
        }) + member_text(headers[n - 1], field_text(type_at(types, n - 1), row[n - 1]))
    }
}

/// The text of the JSON object for a record: a member for each field, in the order of the
/// columns, with the header of the column as its key.
pub open spec fn row_text(headers: Seq<Seq<char>>, types: Seq<JsonlType>, row: Seq<Seq<char>>) -> Seq<
    char,
> {
    seq!['{'] + members_text(headers, types, row, row.len() as int) + seq!['}']
}

/// The error for a record that has a field without a header.
pub open spec fn too_many_fields() -> CliErrorView {
    CliErrorView::Other("CSV record has more fields than the header row"@)
}

/// The line for a record: the text of its object, or an error where a field has no header.
pub open spec fn line_of(headers: Seq<Seq<char>>, types: Seq<JsonlType>, row: Seq<Seq<char>>) -> Result<
    Seq<char>,
    CliErrorView,
> {
    if row.len() > headers.len() {
        Err(too_many_fields())
    } else {
        Ok(row_text(headers, types, row))
    }
}

/// The lines for a sequence of records, each trimmed field by field before it is emitted.
pub open spec fn lines_of(
    headers: Seq<Seq<char>>,
    types: Seq<JsonlType>,
    rows: Seq<Seq<Seq<char>>>,
) -> Result<Seq<Seq<char>>, CliErrorView> {
    if exists|i: int| 0 <= i < rows.len() && #[trigger] rows[i].len() > headers.len() {
        Err(too_many_fields())
    } else {
        Ok(Seq::new(rows.len(), |i: int| row_text(headers, types, trimmed_row(rows[i]))))
    }
}

/// The lines for the records of a table whose first row is the header row.
pub open spec fn table_lines(types: Seq<JsonlType>, table: Seq<Seq<Seq<char>>>) -> Result<
    Seq<Seq<char>>,
    CliErrorView,
> {
    if table.len() == 0 {
        Ok(Seq::empty())
    } else {
        lines_of(table[0], types, table.skip(1))
    }
}

/// The whole conversion: the profiles are read, then the records; a failure of either
/// ends it.
pub open spec fn jsonl_of(
    records: Result<Seq<Seq<Seq<char>>>, Seq<char>>,
    properties: Seq<EntryView>,
) -> Result<Seq<Seq<char>>, CliErrorView> {
    match profiles_of(properties) {
        Err(e) => Err(e),
        Ok(profiles) => match records {
            Err(message) => Err(CliErrorView::Csv(message)),
            Ok(table) => table_lines(coercion_types(profiles), table),
        },
    }
}

impl CoercionTable {
    /// The table for the given profiles: for each column its type, after the boolean
    /// heuristic has looked at its domain.
    pub fn new(profiles: &Vec<ColumnTypeProfile>) -> (r: CoercionTable)
        ensures
            r.types@ == coercion_types(profile_views(profiles@)),
    {
        let mut types: Vec<JsonlType> = Vec::new();
        let mut i: usize = 0;
        while i < profiles.len()
            invariant
                i <= profiles.len(),
                types.len() == i,
                forall|k: int| 0 <= k < i ==> #[trigger] types[k] == column_type_of(profiles[k]@),
            decreases profiles.len() - i,
        {
            types.push(column_type(&profiles[i]));
            i += 1;
        }
        assert(types@ =~= coercion_types(profile_views(profiles@)));
        CoercionTable { types }
    }

    /// The JSON text of `field`, which stands in the column at `idx`.
    pub fn emit(&self, idx: usize, field: &str) -> (r: String)
        ensures
            r@ == field_text(type_at(self.types@, idx as int), field@),
    {
        if idx >= self.types.len() {
            return String::from_str("null");
        }
        match self.types[idx] {
            JsonlType::Integer | JsonlType::Number => if field.is_empty() {
                String::from_str("null")
            } else {
                String::from_str(field)
            },
            JsonlType::Boolean => {
                let c = first_lower_char(field);
                if c == 't' || c == 'y' || c == '1' {
                    String::from_str("true")
                } else {
                    String::from_str("false")
                }
            },
            JsonlType::Null => String::from_str("null"),
            JsonlType::String => if field.is_empty() {
                String::from_str("null")
            } else {
                let mut out = String::new();
                out.push('"');
                push_escaped(&mut out, field);
                out.push('"');
                assert(out@ =~= seq!['"'] + escaped(field@) + seq!['"']);
                out
            },
        }
    }

    /// The line for one record, whose fields are taken as they are: the text of a JSON
    /// object with a member for each field, or an error where the record has more fields
    /// than there are headers.
    pub fn emit_row(&self, headers: &Vec<String>, row: &Vec<String>) -> (r: CliResult<String>)
        ensures
            match r {
                Ok(line) => line_of(row_view(headers@), self.types@, row_view(row@)) == Ok::<
                    Seq<char>,
                    CliErrorView,
                >(line@),
                Err(e) => line_of(row_view(headers@), self.types@, row_view(row@)) == Err::<
                    Seq<char>,
                    CliErrorView,
                >(e@),
            },
    {
        if row.len() > headers.len() {
            return Err(CliError::other("CSV record has more fields than the header row"));
        }
        let ghost hs = row_view(headers@);
        let ghost fs = row_view(row@);
        let mut out = String::new();
        out.push('{');
        let mut idx: usize = 0;
        while idx < row.len()
            invariant
                idx <= row.len() <= headers.len(),
                hs == row_view(headers@),
                fs == row_view(row@),
                out@ == seq!['{'] + members_text(hs, self.types@, fs, idx as int),
            decreases row.len() - idx,
        {
            let ghost before = out@;
            if idx > 0 {
                out.push(',');
            }
            let value = self.emit(idx, row[idx].as_str());
            out.push('"');
            out.append(headers[idx].as_str());
            out.push('"');
            out.push(':');
            out.append(value.as_str());
            proof {
                assert(hs[idx as int] == headers[idx as int]@);
                assert(fs[idx as int] == row[idx as int]@);
                assert(out@ =~= before + (if idx > 0 {
                    seq![',']
                } else {
                    Seq::empty()
                }) + member_text(hs[idx as int], value@));
            }
            idx += 1;
        }
        out.push('}');
        assert(out@ =~= row_text(hs, self.types@, fs));
        Ok(out)
    }

    /// The lines for the records of a table whose first row is the header row. Every
    /// record is trimmed field by field, then emitted.
    pub fn emit_table(&self, table: &Vec<Vec<String>>) -> (r: CliResult<Vec<String>>)
        ensures
            match r {
                Ok(lines) => table_lines(self.types@, rows_view(table@)) == Ok::<
                    Seq<Seq<char>>,
                    CliErrorView,
                >(row_view(lines@)),
                Err(e) => table_lines(self.types@, rows_view(table@)) == Err::<
                    Seq<Seq<char>>,
                    CliErrorView,
                >(e@),
            },
    {
        let mut lines: Vec<String> = Vec::new();
        if table.len() == 0 {
            assert(row_view(lines@) =~= Seq::<Seq<char>>::empty());
            return Ok(lines);
        }
        let headers = &table[0];
        let ghost hs = row_view(headers@);
        let ghost rows = rows_view(table@).skip(1);
        let mut i: usize = 1;
        while i < table.len()
            invariant
                1 <= i <= table.len(),
                lines.len() == i - 1,
                hs == row_view(table[0]@),
                headers == &table[0],
                rows == rows_view(table@).skip(1),
                forall|k: int| 0 <= k < i - 1 ==> (#[trigger] rows[k]).len() <= hs.len(),
                forall|k: int|
                    0 <= k < i - 1 ==> (#[trigger] lines[k])@ == row_text(
                        hs,
                        self.types@,
                        trimmed_row(rows[k]),
                    ),
            decreases table.len() - i,
        {
            assert(rows[i - 1] == row_view(table[i as int]@));
            let trimmed = trim_record(&table[i]);
            assert(row_view(trimmed@).len() == rows[i - 1].len());
            match self.emit_row(headers, &trimmed) {
                Ok(line) => lines.push(line),
                Err(e) => {
                    assert(rows[i - 1].len() > hs.len());
                    return Err(e);
                },
            }
            i += 1;
        }
        proof {
            assert(rows.len() == table.len() - 1);
            assert(row_view(lines@) =~= Seq::new(
                rows.len(),
                |k: int| row_text(hs, self.types@, trimmed_row(rows[k])),
            ));
        }
        Ok(lines)
    }
}

/// Converts CSV text to the lines of newline-delimited JSON. `properties` holds the
/// definition of every column as the profile of the whole data set states it; from it the
/// type of each column is fixed before the first record is emitted. `delimiter` separates
/// the fields of the input. The first record of the input names the columns; each record
/// after it gives one line.
pub fn run(data: &[u8], delimiter: u8, properties: &Vec<(String, JsonValue)>) -> (r: CliResult<
    Vec<String>,
>)
    ensures
        match r {
            Ok(lines) => jsonl_of(csv_records(data@, delimiter), entry_views(properties@)) == Ok::<
                Seq<Seq<char>>,
                CliErrorView,
            >(row_view(lines@)),
            Err(e) => jsonl_of(csv_records(data@, delimiter), entry_views(properties@)) == Err::<
                Seq<Seq<char>>,
                CliErrorView,
            >(e@),
        },
{
    let profiles = match profile_columns(properties) {
        Ok(profiles) => profiles,
        Err(e) => return Err(e),
    };
    let table = CoercionTable::new(&profiles);
    match read_records(data, delimiter) {
        Ok(records) => table.emit_table(&records),
        Err(message) => Err(CliError::Csv(message)),
    }
}

/// The two values of a domain form an unordered pair: whether they make a boolean pair
/// does not depend on which of them comes first.
pub proof fn lemma_boolean_pair_is_unordered(a: char, b: char)
    ensures
        boolean_pair(a, b) == boolean_pair(b, a),
{
}

/// The boolean pairs are exactly these six, each in either order: `t` with `f`, `t` with
/// `_`, `1` with `0`, `1` with `_`, `y` with `n`, `y` with `_`. Two truthy indicators, two
/// indicators that are not truthy, or an indicator `*` make none.
pub proof fn lemma_boolean_pairs(a: char, b: char)
    ensures
        boolean_pair(a, b) <==> {
            ||| (a == 't' && b == 'f') || (a == 'f' && b == 't')
            ||| (a == 't' && b == '_') || (a == '_' && b == 't')
            ||| (a == '1' && b == '0') || (a == '0' && b == '1')
            ||| (a == '1' && b == '_') || (a == '_' && b == '1')
            ||| (a == 'y' && b == 'n') || (a == 'n' && b == 'y')
            ||| (a == 'y' && b == '_') || (a == '_' && b == 'y')
        },
        truthy(a) && truthy(b) ==> !boolean_pair(a, b),
        !truthy(a) && !truthy(b) ==> !boolean_pair(a, b),
        a == '*' || b == '*' ==> !boolean_pair(a, b),
{
}

/// A domain that is no boolean domain leaves the type of the profiler unchanged; a boolean
/// domain makes the column boolean whatever the profiler inferred.
pub proof fn lemma_only_a_boolean_domain_overrides(profile: ColumnTypeProfileView)
    ensures
        profile.domain is Some && boolean_domain(profile.domain->0) ==> column_type_of(profile)
            == JsonlType::Boolean,
        !(profile.domain is Some && boolean_domain(profile.domain->0)) ==> column_type_of(profile)
            == profile.inferred_primitive,
{
}

/// The escape of a text is at least as long as the text.
pub proof fn lemma_escaped_is_no_shorter(s: Seq<char>)
    ensures
        escaped(s).len() >= s.len(),
    decreases s.len(),
{
    if s.len() > 0 {
        lemma_escaped_is_no_shorter(s.drop_last());
    }
}

/// An empty field in a string column is emitted as `null`, and no field of a string column
/// is ever emitted as the empty JSON string.
pub proof fn lemma_string_column_never_emits_the_empty_string(field: Seq<char>)
    ensures
        field.len() == 0 ==> field_text(Some(JsonlType::String), field) == "null"@,
        field_text(Some(JsonlType::String), field) != seq!['"', '"'],
{
    reveal_strlit("null");
    if field.len() > 0 {
        lemma_escaped_is_no_shorter(field);
        assert((seq!['"'] + escaped(field) + seq!['"']).len() >= 3);
    }
}

/// A field in a column that the type table does not cover is emitted as `null`, and the
/// record it stands in is emitted all the same: a record fails only where it has more
/// fields than there are headers.
pub proof fn lemma_uncovered_field_is_null(
    headers: Seq<Seq<char>>,
    types: Seq<JsonlType>,
    row: Seq<Seq<char>>,
    idx: int,
)
    requires
        types.len() <= idx < row.len(),
    ensures
        field_text(type_at(types, idx), row[idx]) == "null"@,
        row.len() <= headers.len() ==> line_of(headers, types, row) is Ok,
{
}

/// What is left of a text without its leading whitespace does not begin with whitespace.
pub proof fn lemma_trimmed_start_is_no_whitespace(s: Seq<char>)
    ensures
        trim_start_of(s).len() > 0 ==> !is_whitespace(trim_start_of(s)[0]),
    decreases s.len(),
{
    if s.len() > 0 && is_whitespace(s[0]) {
        lemma_trimmed_start_is_no_whitespace(s.drop_first());
    }
}

/// The indicator character of a text is never whitespace.
pub proof fn lemma_indicator_is_no_whitespace(s: Seq<char>)
    ensures
        !is_whitespace(first_lower_char_of(s)),
{
    lemma_trimmed_start_is_no_whitespace(s);
}

/// Mapping a text to lower case and removing its leading whitespace can be done in either
/// order.
pub proof fn lemma_trim_start_of_lowered(s: Seq<char>)
    ensures
        trim_start_of(lowered(s)) == lowered(trim_start_of(s)),
    decreases s.len(),
{
    if s.len() > 0 && is_whitespace(s[0]) {
        assert(lowered(s)[0] == ascii_lower(s[0]));
        assert(lowered(s).drop_first() =~= lowered(s.drop_first()));
        lemma_trim_start_of_lowered(s.drop_first());
    } else if s.len() > 0 {
        assert(lowered(s)[0] == ascii_lower(s[0]));
    } else {
        assert(lowered(s) =~= s);
    }
}

/// The indicator character does not depend on the case of ASCII letters: a text and the
/// same text in lower case have the same indicator.
pub proof fn lemma_indicator_ignores_case(s: Seq<char>)
    ensures
        first_lower_char_of(lowered(s)) == first_lower_char_of(s),
{
    lemma_trim_start_of_lowered(s);
    let rest = trim_start_of(s);
    if rest.len() > 0 {
        assert(lowered(rest)[0] == ascii_lower(rest[0]));
    }
}

/// The indicator of a text that begins with a character that is no whitespace is that
/// character in lower case; the indicator of the empty text is the placeholder.
pub proof fn lemma_indicator_of_plain_text(s: Seq<char>)
    ensures
        s.len() == 0 ==> first_lower_char_of(s) == '_',
        s.len() > 0 && !is_whitespace(s[0]) ==> first_lower_char_of(s) == ascii_lower(s[0]),
{
}

} // verus!
