//! The members of a raw payload, as the binding logic reads them.

use vstd::prelude::*;

verus! {

/// A value found in a payload. Lists and nested objects are told apart from
/// the rest and not looked into: no field type reads them.
#[derive(Clone, Debug, PartialEq, Eq)]
pub enum PayloadValue {
    Null,
    Flag(bool),
    /// A number, with its value where it is an integer in the range of `i64`.
    Number(Option<i64>),
    Text(String),
    List,
    Object,
}

/// A payload value as contracts see it.
pub enum PayloadValueView {
    Null,
    Flag(bool),
    Number(Option<i64>),
    Text(Seq<char>),
    List,
    Object,
}

impl View for PayloadValue {
    type V = PayloadValueView;

    open spec fn view(&self) -> PayloadValueView {
        match self {
            PayloadValue::Null => PayloadValueView::Null,
            PayloadValue::Flag(b) => PayloadValueView::Flag(*b),
            PayloadValue::Number(n) => PayloadValueView::Number(*n),
            PayloadValue::Text(s) => PayloadValueView::Text(s@),
            PayloadValue::List => PayloadValueView::List,
            PayloadValue::Object => PayloadValueView::Object,
        }
    }
}

/// One member of a payload object.
#[derive(Clone, Debug, PartialEq, Eq)]
pub struct Member {
    pub name: String,
    pub value: PayloadValue,
}

/// A member as contracts see it.
pub struct MemberView {
    pub name: Seq<char>,
    pub value: PayloadValueView,
}

impl View for Member {
    type V = MemberView;

    open spec fn view(&self) -> MemberView {
        MemberView { name: self.name@, value: self.value@ }
    }
}

/// The views of a list of members, in order.
pub open spec fn member_views(members: Seq<Member>) -> Seq<MemberView> {
    members.map_values(|m: Member| m@)
}

/// The error of `serde_json`. Nothing of it is read: a payload that does not
/// decode is malformed, whatever the reason.
#[verifier::external_type_specification]
#[verifier::external_body]
pub struct ExJsonError(serde_json::Error);

/// The members that `serde_json` decodes from `raw`, in the order in which
/// its map hands them out; `None` where `raw` does not decode as one JSON
/// object. Which bytes decode to what is `serde_json`'s business and is stated
/// nowhere in this crate: contracts only pass the decoded members on to
/// [`crate::bundle::bind_outcome`], which says what becomes of them.
pub uninterp spec fn payload_members(raw: Seq<u8>) -> Option<Seq<MemberView>>;

/// Decodes `raw` with `serde_json::from_slice` into a `serde_json::Map` and
/// hands out its entries, each value by its variant and each number with what
/// `serde_json::Number::as_i64` gives for it.
///
/// Trusted: that the outcome depends on the bytes alone, so that it can be
/// called `payload_members(raw@)`. Nothing else is claimed of it.
#[verifier::external_body]
pub(crate) fn decode_members(raw: &[u8]) -> (decoded: Result<Vec<Member>, serde_json::Error>)
    ensures
        match decoded {
            Ok(members) => payload_members(raw@) == Some(member_views(members@)),
            Err(_) => payload_members(raw@) is None,
        },
{
    let object: serde_json::Map<String, serde_json::Value> = serde_json::from_slice(raw)?;
    Ok(object.into_iter().map(|(name, value)| Member { name, value: match value {
        serde_json::Value::Null => PayloadValue::Null,
        serde_json::Value::Bool(b) => PayloadValue::Flag(b),
        serde_json::Value::Number(n) => PayloadValue::Number(n.as_i64()),
        serde_json::Value::String(s) => PayloadValue::Text(s),
        serde_json::Value::Array(_) => PayloadValue::List,
        serde_json::Value::Object(_) => PayloadValue::Object,
    } }).collect())
}

} // verus!
