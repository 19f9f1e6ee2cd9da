//! Binding a payload's members to a schema's fields.

use crate::payload::{
    decode_members, member_views, payload_members, Member, MemberView, PayloadValue,
    PayloadValueView,
};
use crate::schema::{distinct_names, field_views, FieldType, FieldView, Schema};
use vstd::prelude::*;

verus! {

/// A resolved field value, of the type its field declares.
#[derive(Clone, Debug, PartialEq, Eq)]
pub enum FieldValue {
    Text(String),
    Flag(bool),
    Integer(i64),
}

/// A field value as contracts see it.
pub enum FieldValueView {
    Text(Seq<char>),
    Flag(bool),
    Integer(i64),
}

impl View for FieldValue {
    type V = FieldValueView;

    open spec fn view(&self) -> FieldValueView {
        match self {
            FieldValue::Text(s) => FieldValueView::Text(s@),
            FieldValue::Flag(b) => FieldValueView::Flag(*b),
            FieldValue::Integer(i) => FieldValueView::Integer(*i),
        }
    }
}

impl FieldValue {
    /// The field type this value belongs to.
    pub fn kind(&self) -> (kind: FieldType)
        ensures
            kind == type_of(self@),
    {
        match self {
            FieldValue::Text(_) => FieldType::Text,
            FieldValue::Flag(_) => FieldType::Flag,
            FieldValue::Integer(_) => FieldType::Integer,
        }
    }
}

/// Why a schema could not be resolved.
#[derive(Clone, Debug, PartialEq, Eq)]
pub enum FetchError {
    /// The store holds no entry under the schema's name.
    NotFound,
    /// The store could not be reached.
    TransportError,
    /// The store turned the credentials down.
    AuthError,
    /// The payload is not one well-formed object.
    MalformedPayload,
    /// The payload lacks this field, or holds a value of another type for it.
    ParseError { field: String },
}

/// A resolution error as contracts see it.
pub enum FetchErrorView {
    NotFound,
    TransportError,
    AuthError,
    MalformedPayload,
    ParseError { field: Seq<char> },
}

impl View for FetchError {
    type V = FetchErrorView;

    open spec fn view(&self) -> FetchErrorView {
        match self {
            FetchError::NotFound => FetchErrorView::NotFound,
            FetchError::TransportError => FetchErrorView::TransportError,
            FetchError::AuthError => FetchErrorView::AuthError,
            FetchError::MalformedPayload => FetchErrorView::MalformedPayload,
            FetchError::ParseError { field } => FetchErrorView::ParseError { field: field@ },
        }
    }
}

/// One field of a bundle: the declared name and the resolved value.
#[derive(Clone, Debug, PartialEq, Eq)]
pub struct Entry {
    pub name: String,
    pub value: FieldValue,
}

/// An entry as contracts see it.
pub struct EntryView {
    pub name: Seq<char>,
    pub value: FieldValueView,
}

impl View for Entry {
    type V = EntryView;

    open spec fn view(&self) -> EntryView {
        EntryView { name: self.name@, value: self.value@ }
    }
}

/// The views of a list of entries, in order.
pub open spec fn entry_views(entries: Seq<Entry>) -> Seq<EntryView> {
    entries.map_values(|e: Entry| e@)
}

/// The value of the first member called `name` at or after `from`.
pub open spec fn member_named(members: Seq<MemberView>, name: Seq<char>, from: int) -> Option<
    PayloadValueView,
>
    decreases members.len() - from,
{
    if from < 0 || from >= members.len() {
        None
    } else if members[from].name == name {
        Some(members[from].value)
    } else {
        member_named(members, name, from + 1)
    }
}

/// A payload value read as a field of type `kind`: a string for `Text`, a
/// boolean for `Flag`, an integer that fits `i64` for `Integer`, and nothing
/// else.
pub open spec fn typed_value(kind: FieldType, value: PayloadValueView) -> Option<FieldValueView> {
    match (kind, value) {
        (FieldType::Text, PayloadValueView::Text(s)) => Some(FieldValueView::Text(s)),
        (FieldType::Flag, PayloadValueView::Flag(b)) => Some(FieldValueView::Flag(b)),
        (FieldType::Integer, PayloadValueView::Number(Some(i))) => Some(
            FieldValueView::Integer(i),
        ),
        _ => None,
    }
}

/// The value that `members` hold for `field`; `None` where the field is
/// missing or its value has another type.
pub open spec fn field_value(field: FieldView, members: Seq<MemberView>) -> Option<
    FieldValueView,
> {
    match member_named(members, field.name, 0) {
        Some(value) => typed_value(field.kind, value),
        None => None,
    }
}

/// Index of the first field at or after `from` that `members` hold no value
/// for; `fields.len()` where every one has a value.
pub open spec fn first_unbound(fields: Seq<FieldView>, members: Seq<MemberView>, from: int) -> int
    decreases fields.len() - from,
{
    if from < 0 || from >= fields.len() {
        fields.len() as int
    } else if field_value(fields[from], members) is None {
        from
    } else {
        first_unbound(fields, members, from + 1)
    }
}

/// The entries of the bundle that `members` give for `fields`: one per field,
/// in declaration order, under the declared name.
pub open spec fn bound_entries(fields: Seq<FieldView>, members: Seq<MemberView>) -> Seq<EntryView> {
    Seq::new(
        fields.len(),
        |i: int| EntryView { name: fields[i].name, value: field_value(fields[i], members)->Some_0 },
    )
}

/// What binding `members` to `fields` yields: the bundle where every field
/// has a value of its type, else a parse error that names the first declared
/// field that has none. Members that no field names play no part.
pub open spec fn bind_outcome(fields: Seq<FieldView>, members: Seq<MemberView>) -> Result<
    Seq<EntryView>,
    FetchErrorView,
> {
    let k = first_unbound(fields, members, 0);
    if k < fields.len() {
        Err(FetchErrorView::ParseError { field: fields[k].name })
    } else {
        Ok(bound_entries(fields, members))
    }
}

/// What parsing a raw payload for `fields` yields, given what was decoded
/// from it.
pub open spec fn parse_outcome(fields: Seq<FieldView>, decoded: Option<Seq<MemberView>>) -> Result<
    Seq<EntryView>,
    FetchErrorView,
> {
    match decoded {
        Some(members) => bind_outcome(fields, members),
        None => Err(FetchErrorView::MalformedPayload),
    }
}

/// The value of the first entry called `name` at or after `from`.
pub open spec fn entry_named(entries: Seq<EntryView>, name: Seq<char>, from: int) -> Option<
    FieldValueView,
>
    decreases entries.len() - from,
{
    if from < 0 || from >= entries.len() {
        None
    } else if entries[from].name == name {
        Some(entries[from].value)
    } else {
        entry_named(entries, name, from + 1)
    }
}

/// The field type that a value belongs to.
pub open spec fn type_of(value: FieldValueView) -> FieldType {
    match value {
        FieldValueView::Text(_) => FieldType::Text,
        FieldValueView::Flag(_) => FieldType::Flag,
        FieldValueView::Integer(_) => FieldType::Integer,
    }
}

/// `entries` have the shape that `fields` declare: one entry per field, in
/// order, under the field's name and of the field's type.
pub open spec fn has_shape(entries: Seq<EntryView>, fields: Seq<FieldView>) -> bool {
    &&& entries.len() == fields.len()
    &&& forall|i: int|
        0 <= i < fields.len() ==> (#[trigger] entries[i]).name == fields[i].name && type_of(
            entries[i].value,
        ) == fields[i].kind
}

/// `first_unbound` finds the least field without a value.
pub proof fn lemma_first_unbound(fields: Seq<FieldView>, members: Seq<MemberView>, from: int)
    requires
        0 <= from <= fields.len(),
        forall|k: int| 0 <= k < from ==> field_value(#[trigger] fields[k], members) is Some,
    ensures
        from <= first_unbound(fields, members, from) <= fields.len(),
        first_unbound(fields, members, from) == first_unbound(fields, members, 0),
        forall|k: int|
            0 <= k < first_unbound(fields, members, from) ==> field_value(
                #[trigger] fields[k],
                members,
            ) is Some,
        first_unbound(fields, members, from) < fields.len() ==> field_value(
            fields[first_unbound(fields, members, from)],
            members,
        ) is None,
    decreases fields.len() - from,
{
    lemma_first_unbound_restart(fields, members, from);
    if from < fields.len() && field_value(fields[from], members) is Some {
        lemma_first_unbound(fields, members, from + 1);
    }
}

proof fn lemma_first_unbound_restart(fields: Seq<FieldView>, members: Seq<MemberView>, from: int)
    requires
        0 <= from <= fields.len(),
        forall|k: int| 0 <= k < from ==> field_value(#[trigger] fields[k], members) is Some,
    ensures
        first_unbound(fields, members, from) == first_unbound(fields, members, 0),
    decreases from,
{
    if from > 0 {
        lemma_first_unbound_restart(fields, members, from - 1);
    }
}

/// Binding succeeds exactly when every declared field has a value of its
/// type among the members. The bundle then has the shape that the fields
/// declare and holds, for each field, the value that the members give it.
/// Otherwise the error names the first declared field that has none.
pub proof fn lemma_bind_outcome(fields: Seq<FieldView>, members: Seq<MemberView>)
    ensures
        match bind_outcome(fields, members) {
            Ok(entries) => {
                &&& has_shape(entries, fields)
                &&& forall|i: int|
                    0 <= i < fields.len() ==> field_value(fields[i], members) == Some(
                        (#[trigger] entries[i]).value,
                    )
            },
            Err(error) => exists|k: int|
                {
                    &&& 0 <= k < fields.len()
                    &&& error == FetchErrorView::ParseError { field: (#[trigger] fields[k]).name }
                    &&& field_value(fields[k], members) is None
                    &&& forall|i: int| 0 <= i < k ==> field_value(#[trigger] fields[i], members) is Some
                },
        },
{
    lemma_first_unbound(fields, members, 0);
    let k = first_unbound(fields, members, 0);
    if k < fields.len() {
        assert(bind_outcome(fields, members) == Err::<Seq<EntryView>, FetchErrorView>(
            FetchErrorView::ParseError { field: fields[k].name },
        ));
    } else {
        let entries = bound_entries(fields, members);
        assert forall|i: int| 0 <= i < fields.len() implies (#[trigger] entries[i]).name
            == fields[i].name && type_of(entries[i].value) == fields[i].kind && field_value(
            fields[i],
            members,
        ) == Some(entries[i].value) by {
            assert(field_value(fields[i], members) is Some);
        }
    }
}

/// A member that no field names is ignored: wherever it stands among the
/// members, the outcome is what it is without it.
pub proof fn lemma_extra_member_is_ignored(
    fields: Seq<FieldView>,
    members: Seq<MemberView>,
    at: int,
    extra: MemberView,
)
    requires
        0 <= at <= members.len(),
        forall|i: int| 0 <= i < fields.len() ==> (#[trigger] fields[i]).name != extra.name,
    ensures
        bind_outcome(fields, members.insert(at, extra)) == bind_outcome(fields, members),
{
    let more = members.insert(at, extra);
    assert forall|i: int| 0 <= i < fields.len() implies field_value(#[trigger] fields[i], more)
        == field_value(fields[i], members) by {
        lemma_member_named_skips(members, at, extra, fields[i].name, 0);
    }
    lemma_first_unbound_agrees(fields, members, more, 0);
    assert(bound_entries(fields, more) =~= bound_entries(fields, members));
}

proof fn lemma_member_named_skips(
    members: Seq<MemberView>,
    at: int,
    extra: MemberView,
    name: Seq<char>,
    from: int,
)
    requires
        0 <= at <= members.len(),
        0 <= from <= members.len(),
        name != extra.name,
    ensures
        member_named(members.insert(at, extra), name, if from <= at { from } else { from + 1 })
            == member_named(members, name, from),
        from == at ==> member_named(members.insert(at, extra), name, from + 1) == member_named(
            members,
            name,
            from,
        ),
    decreases members.len() - from,
{
    let more = members.insert(at, extra);
    if from < members.len() {
        lemma_member_named_skips(members, at, extra, name, from + 1);
        if from < at {
            assert(more[from] == members[from]);
        } else {
            assert(more[from + 1] == members[from]);
        }
    }
    if from == at {
        assert(more[at] == extra);
    }
}

proof fn lemma_first_unbound_agrees(
    fields: Seq<FieldView>,
    members: Seq<MemberView>,
    others: Seq<MemberView>,
    from: int,
)
    requires
        0 <= from <= fields.len(),
        forall|i: int|
            0 <= i < fields.len() ==> field_value(#[trigger] fields[i], others) == field_value(
                fields[i],
                members,
            ),
    ensures
        first_unbound(fields, others, from) == first_unbound(fields, members, from),
    decreases fields.len() - from,
{
    if from < fields.len() {
        lemma_first_unbound_agrees(fields, members, others, from + 1);
    }
}

/// In a bundle of distinctly named fields each declared name finds its own
/// entry, and a name that is not declared finds none.
pub proof fn lemma_entry_named(entries: Seq<EntryView>, fields: Seq<FieldView>, name: Seq<char>)
    requires
        has_shape(entries, fields),
        distinct_names(fields),
    ensures
        forall|i: int|
            0 <= i < fields.len() && (#[trigger] fields[i]).name == name ==> entry_named(
                entries,
                name,
                0,
            ) == Some(entries[i].value),
        (forall|i: int| 0 <= i < fields.len() ==> (#[trigger] fields[i]).name != name)
            ==> entry_named(entries, name, 0) is None,
{
    lemma_entry_named_from(entries, fields, name, 0);
}

proof fn lemma_entry_named_from(
    entries: Seq<EntryView>,
    fields: Seq<FieldView>,
    name: Seq<char>,
    from: int,
)
    requires
        has_shape(entries, fields),
        distinct_names(fields),
        0 <= from <= fields.len(),
    ensures
        forall|i: int|
            from <= i < fields.len() && (#[trigger] fields[i]).name == name ==> entry_named(
                entries,
                name,
                from,
            ) == Some(entries[i].value),
        (forall|i: int| from <= i < fields.len() ==> (#[trigger] fields[i]).name != name)
            ==> entry_named(entries, name, from) is None,
    decreases fields.len() - from,
{
    if from < fields.len() {
        lemma_entry_named_from(entries, fields, name, from + 1);
        assert(entries[from].name == fields[from].name);
        if fields[from].name == name {
            assert forall|i: int|
                from <= i < fields.len() && (#[trigger] fields[i]).name == name implies i
                == from by {
                if i > from {
                    assert(fields[from].name != fields[i].name);
                }
            }
        }
    }
}

/// The resolved values of one schema: one entry per declared field, in
/// declaration order.
#[derive(Clone, Debug, PartialEq, Eq)]
pub struct Bundle {
    entries: Vec<Entry>,
}

impl View for Bundle {
    type V = Seq<EntryView>;

    closed spec fn view(&self) -> Seq<EntryView> {
        entry_views(self.entries@)
    }
}

/// A resolution's result as contracts see it.
pub open spec fn outcome_view(outcome: Result<Bundle, FetchError>) -> Result<
    Seq<EntryView>,
    FetchErrorView,
> {
    match outcome {
        Ok(bundle) => Ok(bundle@),
        Err(error) => Err(error@),
    }
}

/// Finds the first member called `name`.
fn find_member<'a>(members: &'a Vec<Member>, name: &String) -> (found: Option<&'a PayloadValue>)
    ensures
        match found {
            Some(value) => member_named(member_views(members@), name@, 0) == Some(value@),
            None => member_named(member_views(members@), name@, 0) is None,
        },
{
    let ghost views = member_views(members@);
    let mut at: usize = 0;
    while at < members.len()
        invariant
            at <= members.len(),
            views == member_views(members@),
            member_named(views, name@, 0) == member_named(views, name@, at as int),
        decreases members.len() - at,
    {
        if members[at].name == *name {
            return Some(&members[at].value);
        }
        at = at + 1;
    }
    None
}

/// Reads a payload value as a field of type `kind`.
fn read_typed(kind: FieldType, value: &PayloadValue) -> (read: Option<FieldValue>)
    ensures
        match read {
            Some(typed) => typed_value(kind, value@) == Some(typed@),
            None => typed_value(kind, value@) is None,
        },
{
    match (kind, value) {
        (FieldType::Text, PayloadValue::Text(s)) => Some(FieldValue::Text(s.clone())),
        (FieldType::Flag, PayloadValue::Flag(b)) => Some(FieldValue::Flag(*b)),
        (FieldType::Integer, PayloadValue::Number(Some(i))) => Some(FieldValue::Integer(*i)),
        _ => None,
    }
}

/// Binds the members of a payload to the fields of `schema`.
///
/// Every declared field must be among the members with a value of its type;
/// members that no field names are ignored. The error names the first
/// declared field that is missing or of another type.
pub fn bind_members(schema: &Schema, members: &Vec<Member>) -> (bound: Result<Bundle, FetchError>)
    ensures
        outcome_view(bound) == bind_outcome(schema@.fields, member_views(members@)),
{
    let fields = schema.fields();
    let ghost declared = field_views(fields@);
    let ghost given = member_views(members@);
    let mut entries: Vec<Entry> = Vec::new();
    let mut at: usize = 0;
    while at < fields.len()
        invariant
            at <= fields.len(),
            declared == field_views(fields@),
            declared == schema@.fields,
            given == member_views(members@),
            entries@.len() == at,
            first_unbound(declared, given, 0) == first_unbound(declared, given, at as int),
            forall|i: int|
                0 <= i < at ==> (#[trigger] entries@[i])@ == bound_entries(declared, given)[i],
        decreases fields.len() - at,
    {
        let field = &fields[at];
        let typed = match find_member(members, &field.name) {
            Some(value) => read_typed(field.kind, value),
            None => None,
        };
        match typed {
            Some(value) => {
                entries.push(Entry { name: field.name.clone(), value });
            },
            None => {
                return Err(FetchError::ParseError { field: field.name.clone() });
            },
        }
        at = at + 1;
    }
    let bundle = Bundle { entries };
    proof {
        assert(bundle@ =~= bound_entries(declared, given));
    }
    Ok(bundle)
}

/// Parses a raw payload into the bundle of `schema`.
///
/// The payload must decode as one object; its members are then bound as
/// [`bind_members`] binds them.
pub fn parse_payload(schema: &Schema, raw: &[u8]) -> (parsed: Result<Bundle, FetchError>)
    ensures
        outcome_view(parsed) == parse_outcome(schema@.fields, payload_members(raw@)),
{
    match decode_members(raw) {
        Ok(members) => bind_members(schema, &members),
        Err(_) => Err(FetchError::MalformedPayload),
    }
}

impl Bundle {
    /// The value of the field called `name`, if the bundle has one.
    pub fn get(&self, name: &str) -> (found: Option<&FieldValue>)
        ensures
            match found {
                Some(value) => entry_named(self@, name@, 0) == Some(value@),
                None => entry_named(self@, name@, 0) is None,
            },
    {
        let wanted = name.to_owned();
        let ghost views = entry_views(self.entries@);
        let mut at: usize = 0;
        while at < self.entries.len()
            invariant
                at <= self.entries.len(),
                wanted@ == name@,
                views == entry_views(self.entries@),
                entry_named(views, name@, 0) == entry_named(views, name@, at as int),
            decreases self.entries.len() - at,
        {
            if self.entries[at].name == wanted {
                return Some(&self.entries[at].value);
            }
            at = at + 1;
        }
        None
    }

    /// The string held by the field called `name`, if the bundle has that
    /// field and it is a text field.
    pub fn text(&self, name: &str) -> (found: Option<&str>)
        ensures
            match found {
                Some(text) => entry_named(self@, name@, 0) == Some(FieldValueView::Text(text@)),
                None => !(entry_named(self@, name@, 0) matches Some(FieldValueView::Text(_))),
            },
    {
        match self.get(name) {
            Some(FieldValue::Text(text)) => Some(text.as_str()),
            _ => None,
        }
    }

    /// The boolean held by the field called `name`, if the bundle has that
    /// field and it is a flag.
    pub fn flag(&self, name: &str) -> (found: Option<bool>)
        ensures
            match found {
                Some(flag) => entry_named(self@, name@, 0) == Some(FieldValueView::Flag(flag)),
                None => !(entry_named(self@, name@, 0) matches Some(FieldValueView::Flag(_))),
            },
    {
        match self.get(name) {
            Some(FieldValue::Flag(flag)) => Some(*flag),
            _ => None,
        }
    }

    /// The integer held by the field called `name`, if the bundle has that
    /// field and it is an integer field.
    pub fn integer(&self, name: &str) -> (found: Option<i64>)
        ensures
            match found {
                Some(integer) => entry_named(self@, name@, 0) == Some(
                    FieldValueView::Integer(integer),
                ),
                None => !(entry_named(self@, name@, 0) matches Some(FieldValueView::Integer(_))),
            },
    {
        match self.get(name) {
            Some(FieldValue::Integer(integer)) => Some(*integer),
            _ => None,
        }
    }

    /// The entries, in declaration order.
    pub fn entries(&self) -> (entries: &Vec<Entry>)
        ensures
            entry_views(entries@) == self@,
    {
        &self.entries
    }

    /// The number of fields.
    pub fn len(&self) -> (len: usize)
        ensures
            len == self@.len(),
    {
        self.entries.len()
    }
}

} // verus!
