//! One level of a JSON text. What is nested in it stays text, in compact form, and is looked into
//! when it is needed.

use serde_json::Value;
use vstd::prelude::*;

use crate::text::{same_text, texts};

verus! {

/// A JSON value, with the values nested in it as texts.
#[derive(Debug, Clone, PartialEq, Eq)]
pub enum JsonNode {
    Null,
    Bool(bool),
    /// A number, as it is written.
    Number(String),
    Text(String),
    Array(Vec<String>),
    /// Each key once.
    Object(Vec<(String, String)>),
}

/// The model of a node.
#[verifier::ext_equal]
pub enum NodeModel {
    Null,
    Bool(bool),
    Number(Seq<char>),
    Text(Seq<char>),
    Array(Seq<Seq<char>>),
    Object(Seq<(Seq<char>, Seq<char>)>),
}

/// The models of the members of an object.
pub open spec fn member_models(members: Seq<(String, String)>) -> Seq<(Seq<char>, Seq<char>)> {
    members.map_values(|m: (String, String)| (m.0@, m.1@))
}

impl View for JsonNode {
    type V = NodeModel;

    open spec fn view(&self) -> NodeModel {
        match *self {
            JsonNode::Null => NodeModel::Null,
            JsonNode::Bool(b) => NodeModel::Bool(b),
            JsonNode::Number(n) => NodeModel::Number(n@),
            JsonNode::Text(s) => NodeModel::Text(s@),
            JsonNode::Array(items) => NodeModel::Array(texts(items@)),
            JsonNode::Object(members) => NodeModel::Object(member_models(members@)),
        }
    }
}

/// What `serde_json::from_str::<serde_json::Value>` makes of a text: the outermost value, or the
/// message of the error.
pub uninterp spec fn json_of(text: Seq<char>) -> Result<NodeModel, Seq<char>>;

/// Calls `serde_json::from_str::<serde_json::Value>` and takes the outermost value apart; values
/// nested in it are turned into text again by the `Display` of `serde_json::Value`. The contract
/// only says that the outcome depends on the text alone.
#[verifier::external_body]
pub(crate) fn decode(text: &str) -> (r: Result<JsonNode, String>)
    ensures
        match r {
            Ok(node) => json_of(text@) == Ok::<NodeModel, Seq<char>>(node@),
            Err(e) => json_of(text@) == Err::<NodeModel, Seq<char>>(e@),
        },
{
    match serde_json::from_str::<Value>(text) {
        Err(e) => Err(e.to_string()),
        Ok(Value::Null) => Ok(JsonNode::Null),
        Ok(Value::Bool(b)) => Ok(JsonNode::Bool(b)),
        Ok(Value::Number(n)) => Ok(JsonNode::Number(n.to_string())),
        Ok(Value::String(s)) => Ok(JsonNode::Text(s)),
        Ok(Value::Array(a)) => Ok(JsonNode::Array(a.iter().map(|v| v.to_string()).collect())),
        Ok(Value::Object(o)) => Ok(
            JsonNode::Object(o.iter().map(|m| (m.0.to_string(), m.1.to_string())).collect()),
        ),
    }
}

/// The text of a member of an object.
pub open spec fn member(members: Seq<(Seq<char>, Seq<char>)>, key: Seq<char>) -> Option<Seq<char>>
    decreases members.len(),
{
    if members.len() == 0 {
        None
    } else if members[0].0 == key {
        Some(members[0].1)
    } else {
        member(members.skip(1), key)
    }
}

impl NodeModel {
    /// The text of a field; only an object has fields.
    pub open spec fn field(self, key: Seq<char>) -> Option<Seq<char>> {
        match self {
            NodeModel::Object(members) => member(members, key),
            _ => None,
        }
    }
}

/// The string that a field holds, if it holds one.
pub open spec fn string_field(node: NodeModel, key: Seq<char>) -> Option<Seq<char>> {
    match node.field(key) {
        Some(text) => match json_of(text) {
            Ok(NodeModel::Text(s)) => Some(s),
            _ => None,
        },
        None => None,
    }
}

/// The truth value that a field holds, if it holds one.
pub open spec fn bool_field(node: NodeModel, key: Seq<char>) -> Option<bool> {
    match node.field(key) {
        Some(text) => match json_of(text) {
            Ok(NodeModel::Bool(b)) => Some(b),
            _ => None,
        },
        None => None,
    }
}

/// The value that a field holds.
pub open spec fn node_field(node: NodeModel, key: Seq<char>) -> Option<NodeModel> {
    match node.field(key) {
        Some(text) => match json_of(text) {
            Ok(n) => Some(n),
            Err(_) => None,
        },
        None => None,
    }
}

impl JsonNode {
    /// The text of a field.
    pub fn field(&self, key: &str) -> (r: Option<&str>)
        ensures
            match self@.field(key@) {
                Some(text) => r is Some && r->0@ == text,
                None => r is None,
            },
    {
        match self {
            JsonNode::Object(members) => {
                let ghost models = member_models(members@);
                let mut i: usize = 0;
                proof {
                    assert(models.skip(0) =~= models);
                }
                while i < members.len()
                    invariant
                        i <= members.len(),
                        models == member_models(members@),
                        self@ == NodeModel::Object(models),
                        member(models, key@) == member(models.skip(i as int), key@),
                    decreases members.len() - i,
                {
                    proof {
                        assert(models.skip(i as int)[0] == models[i as int]);
                        assert(models.skip(i as int).skip(1) =~= models.skip(i + 1));
                    }
                    if same_text(members[i].0.as_str(), key) {
                        return Some(members[i].1.as_str());
                    }
                    i += 1;
                }
                None
            },
            _ => None,
        }
    }

    /// The string that a field holds, if it holds one.
    pub fn string_field(&self, key: &str) -> (r: Option<String>)
        ensures
            match string_field(self@, key@) {
                Some(s) => r is Some && r->0@ == s,
                None => r is None,
            },
    {
        match self.field(key) {
            Some(text) => match decode(text) {
                Ok(JsonNode::Text(s)) => Some(s),
                _ => None,
            },
            None => None,
        }
    }

    /// The truth value that a field holds, if it holds one.
    pub fn bool_field(&self, key: &str) -> (r: Option<bool>)
        ensures
            r == bool_field(self@, key@),
    {
        match self.field(key) {
            Some(text) => match decode(text) {
                Ok(JsonNode::Bool(b)) => Some(b),
                _ => None,
            },
            None => None,
        }
    }

    /// The value that a field holds.
    pub fn node_field(&self, key: &str) -> (r: Option<JsonNode>)
        ensures
            match node_field(self@, key@) {
                Some(n) => r is Some && r->0@ == n,
                None => r is None,
            },
    {
        match self.field(key) {
            Some(text) => match decode(text) {
                Ok(node) => Some(node),
                Err(_) => None,
            },
            None => None,
        }
    }
}

// ---- Laws --------------------------------------------------------------------

/// A field of an object is the first member of that name; an object without such a member, and
/// what is no object, has no such field.
pub proof fn law_a_field_is_its_first_member(
    members: Seq<(Seq<char>, Seq<char>)>,
    key: Seq<char>,
    i: int,
)
    requires
        0 <= i <= members.len(),
        i < members.len() ==> members[i].0 == key,
        forall|k: int| 0 <= k < i ==> (#[trigger] members[k]).0 != key,
    ensures
        i < members.len() ==> NodeModel::Object(members).field(key) == Some(members[i].1),
        i == members.len() ==> NodeModel::Object(members).field(key) is None,
    decreases members.len(),
{
    if i > 0 {
        let rest = members.skip(1);
        assert(members[0].0 != key);
        assert forall|k: int| 0 <= k < i - 1 implies (#[trigger] rest[k]).0 != key by {
            assert(rest[k] == members[k + 1]);
        }
        if i < members.len() {
            assert(rest[i - 1] == members[i]);
        }
        law_a_field_is_its_first_member(rest, key, i - 1);
    }
}

/// A field is read by its type: text as text, a truth value as such, anything as a node, and
/// nothing where the type does not fit.
pub proof fn law_fields_are_read_by_their_type(node: NodeModel, key: Seq<char>, text: Seq<char>)
    requires
        node.field(key) == Some(text),
    ensures
        forall|s: Seq<char>|
            string_field(node, key) == Some(s) <==> json_of(text) == Ok::<
                NodeModel,
                Seq<char>,
            >(NodeModel::Text(s)),
        forall|b: bool|
            bool_field(node, key) == Some(b) <==> json_of(text) == Ok::<
                NodeModel,
                Seq<char>,
            >(NodeModel::Bool(b)),
        forall|n: NodeModel|
            node_field(node, key) == Some(n) <==> json_of(text) == Ok::<
                NodeModel,
                Seq<char>,
            >(n),
{
}

} // verus!
