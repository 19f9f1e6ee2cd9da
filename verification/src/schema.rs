//! Schema declarations and the store key they are looked up under.

use vstd::prelude::*;

verus! {

/// The type a declared field must have in the payload.
#[derive(Clone, Copy, Debug, PartialEq, Eq, Structural)]
pub enum FieldType {
    /// A string.
    Text,
    /// `true` or `false`.
    Flag,
    /// An integer in the range of `i64`.
    Integer,
}

/// The field type that a Rust type of this name is declared as: `String` is
/// text, `bool` a flag, `i64` an integer. No other type can be declared.
pub open spec fn field_type_named(written: Seq<char>) -> Option<FieldType> {
    if written == "String"@ {
        Some(FieldType::Text)
    } else if written == "bool"@ {
        Some(FieldType::Flag)
    } else if written == "i64"@ {
        Some(FieldType::Integer)
    } else {
        None
    }
}

impl FieldType {
    /// The field type of a struct field whose Rust type is written `written`.
    pub fn for_rust_type(written: &str) -> (kind: Option<FieldType>)
        ensures
            kind == field_type_named(written@),
    {
        let given = written.to_owned();
        if given == "String".to_owned() {
            Some(FieldType::Text)
        } else if given == "bool".to_owned() {
            Some(FieldType::Flag)
        } else if given == "i64".to_owned() {
            Some(FieldType::Integer)
        } else {
            None
        }
    }
}

/// Start of the last segment of `s`, scanning from `at` with the current
/// segment beginning at `start`. Separators are matched left to right and do
/// not overlap.
pub open spec fn segment_start(s: Seq<char>, start: int, at: int) -> int
    decreases s.len() - at,
{
    if at < 0 || at + 1 >= s.len() {
        start
    } else if s[at] == ':' && s[at + 1] == ':' {
        segment_start(s, at + 2, at + 2)
    } else {
        segment_start(s, start, at + 1)
    }
}

/// The part of a type path after its last `::` separator; the whole path
/// where it holds none.
pub open spec fn bare_name_of(path: Seq<char>) -> Seq<char> {
    path.subrange(segment_start(path, 0, 0), path.len() as int)
}

/// A `::` separator stands at position `i` of `s`.
pub open spec fn separator_at(s: Seq<char>, i: int) -> bool {
    0 <= i && i + 1 < s.len() && s[i] == ':' && s[i + 1] == ':'
}

/// `s` holds a `::` separator.
pub open spec fn has_separator(s: Seq<char>) -> bool {
    exists|i: int| separator_at(s, i)
}

proof fn lemma_segment_start(s: Seq<char>, start: int, at: int)
    requires
        0 <= start <= at <= s.len(),
        forall|i: int| start <= i < at ==> !separator_at(s, i),
    ensures
        start <= segment_start(s, start, at) <= s.len(),
        forall|i: int| segment_start(s, start, at) <= i ==> !separator_at(s, i),
        (forall|i: int| at <= i ==> !separator_at(s, i)) ==> segment_start(s, start, at) == start,
    decreases s.len() - at,
{
    if at + 1 >= s.len() {
    } else if s[at] == ':' && s[at + 1] == ':' {
        assert(separator_at(s, at));
        lemma_segment_start(s, at + 2, at + 2);
    } else {
        lemma_segment_start(s, start, at + 1);
    }
}

/// The bare name is the end of the path, from behind a separator or from the
/// path's beginning, and holds no separator itself. A path without a
/// separator is its own bare name.
pub proof fn lemma_bare_name(path: Seq<char>)
    ensures
        exists|k: int|
            0 <= k <= path.len() && (k == 0 || separator_at(path, k - 2)) && bare_name_of(path)
                == #[trigger] path.subrange(k, path.len() as int),
        !has_separator(bare_name_of(path)),
        !has_separator(path) ==> bare_name_of(path) == path,
        bare_name_of(bare_name_of(path)) == bare_name_of(path),
{
    lemma_segment_start(path, 0, 0);
    lemma_segment_start_follows_separator(path, 0, 0);
    let k = segment_start(path, 0, 0);
    let bare = bare_name_of(path);
    assert(bare == path.subrange(k, path.len() as int));
    assert forall|i: int| !separator_at(bare, i) by {
        if separator_at(bare, i) {
            assert(separator_at(path, k + i));
        }
    }
    if !has_separator(path) {
        assert(path.subrange(0, path.len() as int) =~= path);
    }
    lemma_segment_start(bare, 0, 0);
    assert(bare.subrange(0, bare.len() as int) =~= bare);
}

proof fn lemma_segment_start_follows_separator(s: Seq<char>, start: int, at: int)
    requires
        0 <= start <= at <= s.len(),
        start == 0 || separator_at(s, start - 2),
    ensures
        segment_start(s, start, at) == 0 || separator_at(s, segment_start(s, start, at) - 2),
    decreases s.len() - at,
{
    if at + 1 >= s.len() {
    } else if s[at] == ':' && s[at + 1] == ':' {
        lemma_segment_start_follows_separator(s, at + 2, at + 2);
    } else {
        lemma_segment_start_follows_separator(s, start, at + 1);
    }
}

/// A name behind a namespace is found again: where `name` holds no separator
/// and `namespace` does not end in a colon, the bare name of
/// `namespace::name` is `name`.
pub proof fn lemma_bare_name_of_qualified(namespace: Seq<char>, name: Seq<char>)
    requires
        !has_separator(name),
        namespace.len() == 0 || namespace.last() != ':',
    ensures
        bare_name_of(namespace + seq![':', ':'] + name) == name,
{
    let path = namespace + seq![':', ':'] + name;
    let n = namespace.len() as int;
    assert(path[n] == ':' && path[n + 1] == ':');
    assert forall|i: int| n + 2 <= i implies !separator_at(path, i) by {
        if separator_at(path, i) {
            assert(separator_at(name, i - n - 2));
        }
    }
    lemma_scan_reaches(path, n, 0, 0);
    assert(path.subrange(n + 2, path.len() as int) =~= name);
}

proof fn lemma_scan_reaches(s: Seq<char>, n: int, start: int, at: int)
    requires
        0 <= start <= at <= n,
        separator_at(s, n),
        n == 0 || s[n - 1] != ':',
        forall|i: int| n + 2 <= i ==> !separator_at(s, i),
    ensures
        segment_start(s, start, at) == n + 2,
    decreases n - at,
{
    if at == n {
        lemma_segment_start(s, n + 2, n + 2);
    } else if s[at] == ':' && s[at + 1] == ':' {
        lemma_scan_reaches(s, n, at + 2, at + 2);
    } else {
        lemma_scan_reaches(s, n, start, at + 1);
    }
}

/// Strips the namespace from a type path: `"app::config::Secrets"` gives
/// `"Secrets"`.
pub fn bare_name(path: &str) -> (name: String)
    ensures
        name@ == bare_name_of(path@),
{
    let n: usize = path.unicode_len();
    let mut start: usize = 0;
    let mut at: usize = 0;
    while at < n && at + 1 < n
        invariant
            n == path@.len(),
            start <= at <= n,
            segment_start(path@, 0, 0) == segment_start(path@, start as int, at as int),
        decreases n - at,
    {
        if path.get_char(at) == ':' && path.get_char(at + 1) == ':' {
            at = at + 2;
            start = at;
        } else {
            at = at + 1;
        }
    }
    path.substring_char(start, n).to_owned()
}

/// One declared field: its name and the type its value must have.
#[derive(Clone, Debug, PartialEq, Eq)]
pub struct Field {
    pub name: String,
    pub kind: FieldType,
}

/// A field as contracts see it.
pub struct FieldView {
    pub name: Seq<char>,
    pub kind: FieldType,
}

impl View for Field {
    type V = FieldView;

    open spec fn view(&self) -> FieldView {
        FieldView { name: self.name@, kind: self.kind }
    }
}

impl Field {
    pub fn new(name: &str, kind: FieldType) -> (field: Field)
        ensures
            field@ == (FieldView { name: name@, kind }),
    {
        Field { name: name.to_owned(), kind }
    }
}

/// The views of a list of fields, in order.
pub open spec fn field_views(fields: Seq<Field>) -> Seq<FieldView> {
    fields.map_values(|f: Field| f@)
}

/// Why a declaration was turned down.
#[derive(Clone, Debug, PartialEq, Eq)]
pub enum DeclarationError {
    /// The schema has no name.
    EmptyName,
    /// The schema declares no field.
    NoFields,
    /// Two fields share this name.
    DuplicateField { name: String },
}

/// A declaration error as contracts see it.
pub enum DeclarationErrorView {
    EmptyName,
    NoFields,
    DuplicateField { name: Seq<char> },
}

impl View for DeclarationError {
    type V = DeclarationErrorView;

    open spec fn view(&self) -> DeclarationErrorView {
        match self {
            DeclarationError::EmptyName => DeclarationErrorView::EmptyName,
            DeclarationError::NoFields => DeclarationErrorView::NoFields,
            DeclarationError::DuplicateField { name } => DeclarationErrorView::DuplicateField {
                name: name@,
            },
        }
    }
}

/// An earlier field carries the name of field `j`.
pub open spec fn repeats_earlier(fields: Seq<FieldView>, j: int) -> bool {
    exists|i: int| 0 <= i < j && #[trigger] fields[i].name == fields[j].name
}

/// No two fields share a name.
pub open spec fn distinct_names(fields: Seq<FieldView>) -> bool {
    forall|i: int, j: int|
        0 <= i < j < fields.len() ==> #[trigger] fields[i].name != #[trigger] fields[j].name
}

/// Index of the first field at or after `from` whose name an earlier field
/// already carries; `fields.len()` where there is none.
pub open spec fn first_repeat(fields: Seq<FieldView>, from: int) -> int
    decreases fields.len() - from,
{
    if from < 0 || from >= fields.len() {
        fields.len() as int
    } else if repeats_earlier(fields, from) {
        from
    } else {
        first_repeat(fields, from + 1)
    }
}

/// What a declaration is faulted for, if anything: a missing name before
/// missing fields, missing fields before a repeated name, and of repeated
/// names the one that is repeated first.
pub open spec fn declaration_fault(name: Seq<char>, fields: Seq<FieldView>) -> Option<
    DeclarationErrorView,
> {
    if name.len() == 0 {
        Some(DeclarationErrorView::EmptyName)
    } else if fields.len() == 0 {
        Some(DeclarationErrorView::NoFields)
    } else if first_repeat(fields, 0) < fields.len() {
        Some(DeclarationErrorView::DuplicateField { name: fields[first_repeat(fields, 0)].name })
    } else {
        None
    }
}

/// A schema as contracts see it.
pub struct SchemaView {
    pub name: Seq<char>,
    pub fields: Seq<FieldView>,
}

impl SchemaView {
    /// The schema has a name, at least one field, and no name twice.
    pub open spec fn well_formed(self) -> bool {
        &&& self.name.len() > 0
        &&& self.fields.len() > 0
        &&& distinct_names(self.fields)
    }
}

/// A named, ordered set of typed fields. Its name is the key of the store
/// entry that holds its values.
#[derive(Debug, PartialEq, Eq)]
pub struct Schema {
    name: String,
    fields: Vec<Field>,
}

impl View for Schema {
    type V = SchemaView;

    closed spec fn view(&self) -> SchemaView {
        SchemaView { name: self.name@, fields: field_views(self.fields@) }
    }
}

/// `first_repeat` finds a repeat exactly where the names are not distinct, and
/// finds the least one.
pub proof fn lemma_first_repeat(fields: Seq<FieldView>, from: int)
    requires
        0 <= from <= fields.len(),
        forall|k: int| 0 <= k < from ==> !repeats_earlier(fields, k),
    ensures
        from <= first_repeat(fields, from) <= fields.len(),
        forall|k: int| 0 <= k < first_repeat(fields, from) ==> !repeats_earlier(fields, k),
        first_repeat(fields, from) < fields.len() ==> repeats_earlier(
            fields,
            first_repeat(fields, from),
        ),
        first_repeat(fields, from) == first_repeat(fields, 0),
        (first_repeat(fields, from) == fields.len()) <==> distinct_names(fields),
    decreases fields.len() - from,
{
    lemma_first_repeat_restart(fields, from);
    if from >= fields.len() {
        assert forall|i: int, j: int| 0 <= i < j < fields.len() implies #[trigger] fields[i].name
            != #[trigger] fields[j].name by {
            assert(!repeats_earlier(fields, j));
        }
    } else if repeats_earlier(fields, from) {
        let i = choose|i: int| 0 <= i < from && #[trigger] fields[i].name == fields[from].name;
        assert(fields[i].name == fields[from].name);
    } else {
        lemma_first_repeat(fields, from + 1);
    }
}

/// A declaration is faulted exactly when it is not well formed: for a missing
/// name, for having no field, or for two fields that share a name, in which
/// case the name given is one that two fields do share.
pub proof fn lemma_declaration_fault(name: Seq<char>, fields: Seq<FieldView>)
    ensures
        declaration_fault(name, fields) is None <==> (SchemaView { name, fields }).well_formed(),
        name.len() > 0 && fields.len() == 0 ==> declaration_fault(name, fields) == Some(
            DeclarationErrorView::NoFields,
        ),
        name.len() > 0 && !distinct_names(fields) ==> declaration_fault(name, fields) matches Some(
            DeclarationErrorView::DuplicateField { .. },
        ),
        declaration_fault(name, fields) matches Some(
            DeclarationErrorView::DuplicateField { name: repeated },
        ) ==> exists|i: int, j: int|
            0 <= i < j < fields.len() && #[trigger] fields[i].name == repeated
                && #[trigger] fields[j].name == repeated,
{
    lemma_first_repeat(fields, 0);
    let j = first_repeat(fields, 0);
    if name.len() > 0 && fields.len() > 0 && j < fields.len() {
        let i = choose|i: int| 0 <= i < j && #[trigger] fields[i].name == fields[j].name;
        assert(fields[i].name == fields[j].name);
    }
}

proof fn lemma_first_repeat_restart(fields: Seq<FieldView>, from: int)
    requires
        0 <= from <= fields.len(),
        forall|k: int| 0 <= k < from ==> !repeats_earlier(fields, k),
    ensures
        first_repeat(fields, from) == first_repeat(fields, 0),
    decreases from,
{
    if from > 0 {
        lemma_first_repeat_restart(fields, from - 1);
        assert(!repeats_earlier(fields, from - 1));
    }
}

impl Schema {
    #[verifier::type_invariant]
    spec fn inv(self) -> bool {
        self@.well_formed()
    }

    /// Declares a schema. The declaration is accepted exactly when it has a
    /// name, at least one field, and no field name twice.
    pub fn declare(name: &str, fields: Vec<Field>) -> (declared: Result<Schema, DeclarationError>)
        ensures
            match declared {
                Ok(schema) => {
                    &&& declaration_fault(name@, field_views(fields@)) is None
                    &&& schema@ == (SchemaView { name: name@, fields: field_views(fields@) })
                    &&& schema@.well_formed()
                },
                Err(error) => declaration_fault(name@, field_views(fields@)) == Some(error@),
            },
    {
        let ghost views = field_views(fields@);
        if name.unicode_len() == 0 {
            return Err(DeclarationError::EmptyName);
        }
        if fields.len() == 0 {
            return Err(DeclarationError::NoFields);
        }
        let mut j: usize = 0;
        while j < fields.len()
            invariant
                j <= fields.len(),
                name@.len() > 0,
                views == field_views(fields@),
                forall|k: int| 0 <= k < j ==> !repeats_earlier(views, k),
            decreases fields.len() - j,
        {
            let mut i: usize = 0;
            while i < j
                invariant
                    i <= j < fields.len(),
                    name@.len() > 0,
                    views == field_views(fields@),
                    forall|k: int| 0 <= k < j ==> !repeats_earlier(views, k),
                    forall|k: int| 0 <= k < i ==> views[k].name != views[j as int].name,
                decreases j - i,
            {
                if fields[i].name == fields[j].name {
                    proof {
                        assert(views[i as int].name == views[j as int].name);
                        assert(repeats_earlier(views, j as int));
                        lemma_first_repeat(views, j as int);
                    }
                    return Err(DeclarationError::DuplicateField { name: fields[j].name.clone() });
                }
                i = i + 1;
            }
            j = j + 1;
        }
        proof {
            lemma_first_repeat(views, j as int);
        }
        Ok(Schema { name: name.to_owned(), fields })
    }

    /// Declares a schema for a type, under the type's bare name: the
    /// namespace of `type_path` is stripped as [`bare_name`] strips it.
    pub fn declare_for_type(type_path: &str, fields: Vec<Field>) -> (declared: Result<
        Schema,
        DeclarationError,
    >)
        ensures
            match declared {
                Ok(schema) => {
                    &&& declaration_fault(bare_name_of(type_path@), field_views(fields@)) is None
                    &&& schema@ == (SchemaView {
                        name: bare_name_of(type_path@),
                        fields: field_views(fields@),
                    })
                    &&& schema@.well_formed()
                },
                Err(error) => declaration_fault(bare_name_of(type_path@), field_views(fields@))
                    == Some(error@),
            },
    {
        let name = bare_name(type_path);
        Schema::declare(name.as_str(), fields)
    }

    /// The declared name.
    pub fn name(&self) -> (name: &str)
        ensures
            name@ == self@.name,
    {
        self.name.as_str()
    }

    /// The declared fields, in order.
    pub fn fields(&self) -> (fields: &Vec<Field>)
        ensures
            field_views(fields@) == self@.fields,
            self@.well_formed(),
    {
        proof {
            use_type_invariant(self);
        }
        &self.fields
    }

    /// The key under which the store is asked for this schema's values: the
    /// declared name, unchanged.
    pub fn store_key(&self) -> (key: String)
        ensures
            key@ == self@.name,
    {
        self.name.clone()
    }
}

} // verus!
