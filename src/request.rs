//! Composition of the outbound request body.
//!
//! System turns are left out, the model and token limit come from the
//! provider configuration or from defaults, and every other configuration
//! field is carried over, except the reserved keys that the composer always
//! sets itself.

use vstd::prelude::*;

use crate::model::{Message, QwenMessage, Role};

verus! {

#[verifier::external_type_specification]
#[verifier::external_body]
pub struct ExJsonValue(serde_json::Value);

/// Relies on the derived `Clone` of `serde_json::Value`: the copy is the same
/// JSON value.
pub assume_specification[ <serde_json::Value as Clone>::clone ](v: &serde_json::Value) -> (r:
    serde_json::Value)
    ensures
        r == *v,
;

/// The model used where the configuration names none.
pub const DEFAULT_MODEL: &'static str = "qwen-plus";

/// The token limit used where the configuration sets none.
pub const DEFAULT_MAX_TOKENS: u64 = 8192;

/// A provider configuration: the fields of its JSON body, in order, and the
/// custom HTTP headers to send.
#[derive(Clone, Debug)]
pub struct ApiConfig {
    pub body: Vec<(String, serde_json::Value)>,
    pub headers: Vec<(String, String)>,
}

/// The value of a request field.
#[derive(Clone, Debug)]
pub enum FieldValue {
    Text(String),
    Integer(u64),
    Json(serde_json::Value),
}

/// The outbound request body.
#[derive(Clone, Debug)]
pub struct QwenRequest {
    pub messages: Vec<QwenMessage>,
    pub stream: bool,
    pub model: FieldValue,
    pub max_tokens: FieldValue,
    /// The other configuration fields, in the configuration's order.
    pub extra: Vec<(String, serde_json::Value)>,
}

/// A message as the service's vocabulary writes it: its role and content.
pub open spec fn message_view(m: QwenMessage) -> (Option<Seq<char>>, Option<Seq<char>>) {
    (
        match m.role {
            Some(r) => Some(r@),
            None => None,
        },
        match m.content {
            Some(c) => Some(c@),
            None => None,
        },
    )
}

/// The service's name for a role.
pub open spec fn role_name(r: Role) -> Seq<char> {
    match r {
        Role::System => "system"@,
        Role::User => "user"@,
        Role::Assistant => "assistant"@,
    }
}

/// The messages that are sent for a conversation: every turn but the system
/// ones, in order, each with its role's name and its content.
pub open spec fn outgoing(ms: Seq<Message>) -> Seq<(Option<Seq<char>>, Option<Seq<char>>)>
    decreases ms.len(),
{
    if ms.len() == 0 {
        seq![]
    } else {
        let prev = outgoing(ms.drop_last());
        let m = ms.last();
        if m.role == Role::System {
            prev
        } else {
            prev.push((Some(role_name(m.role)), Some(m.content@)))
        }
    }
}

/// The value of the first field named `key`.
pub open spec fn lookup(body: Seq<(String, serde_json::Value)>, key: Seq<char>) -> Option<
    serde_json::Value,
>
    decreases body.len(),
{
    if body.len() == 0 {
        None
    } else if body[0].0@ == key {
        Some(body[0].1)
    } else {
        lookup(body.drop_first(), key)
    }
}

/// A key that the composer always sets itself and never takes from the
/// configuration.
pub open spec fn is_reserved(key: Seq<char>) -> bool {
    key == "stream"@ || key == "messages"@ || key == "system"@
}

/// A key that has a field of its own in the request.
pub open spec fn is_composed(key: Seq<char>) -> bool {
    is_reserved(key) || key == "model"@ || key == "max_tokens"@
}

/// The configuration fields carried over as they are, in order.
pub open spec fn extra_fields(body: Seq<(String, serde_json::Value)>) -> Seq<
    (String, serde_json::Value),
>
    decreases body.len(),
{
    if body.len() == 0 {
        seq![]
    } else {
        let prev = extra_fields(body.drop_last());
        if is_composed(body.last().0@) {
            prev
        } else {
            prev.push(body.last())
        }
    }
}

/// `f` is the text `t`.
pub open spec fn is_text(f: FieldValue, t: Seq<char>) -> bool {
    match f {
        FieldValue::Text(s) => s@ == t,
        _ => false,
    }
}

/// The field is the configuration's value where it has one, else the text
/// `default`.
pub open spec fn configured_or_text(
    f: FieldValue,
    body: Seq<(String, serde_json::Value)>,
    key: Seq<char>,
    default: Seq<char>,
) -> bool {
    match lookup(body, key) {
        Some(v) => f == FieldValue::Json(v),
        None => is_text(f, default),
    }
}

/// The field is the configuration's value where it has one, else the
/// integer `default`.
pub open spec fn configured_or_integer(
    f: FieldValue,
    body: Seq<(String, serde_json::Value)>,
    key: Seq<char>,
    default: u64,
) -> bool {
    match lookup(body, key) {
        Some(v) => f == FieldValue::Json(v),
        None => f == FieldValue::Integer(default),
    }
}

fn named(s: &String, key: &str) -> (r: bool)
    ensures
        r == (s@ == key@),
{
    let k = String::from_str(key);
    *s == k
}

/// The first field of the configuration named `key`.
fn find_field(body: &Vec<(String, serde_json::Value)>, key: &str) -> (r: Option<
    serde_json::Value,
>)
    ensures
        r == lookup(body@, key@),
{
    let mut i: usize = 0;
    assert(body@.subrange(0, body@.len() as int) =~= body@);
    while i < body.len()
        invariant
            i <= body@.len(),
            lookup(body@, key@) == lookup(body@.subrange(i as int, body@.len() as int), key@),
        decreases body@.len() - i,
    {
        let ghost rest = body@.subrange(i as int, body@.len() as int);
        assert(rest.drop_first() =~= body@.subrange(i + 1, body@.len() as int));
        if named(&body[i].0, key) {
            return Some(body[i].1.clone());
        }
        i = i + 1;
    }
    None
}

fn is_composed_key(key: &String) -> (r: bool)
    ensures
        r == is_composed(key@),
{
    named(key, "stream") || named(key, "messages") || named(key, "system") || named(key, "model")
        || named(key, "max_tokens")
}

/// Composes the request body for `messages` and the configuration.
pub fn build_request(messages: Vec<Message>, stream: bool, config: &ApiConfig) -> (r:
    QwenRequest)
    ensures
        r.messages@.map_values(|m: QwenMessage| message_view(m)) == outgoing(messages@),
        r.stream == stream,
        configured_or_text(r.model, config.body@, "model"@, DEFAULT_MODEL@),
        configured_or_integer(r.max_tokens, config.body@, "max_tokens"@, DEFAULT_MAX_TOKENS),
        r.extra@ == extra_fields(config.body@),
{
    let mut out: Vec<QwenMessage> = Vec::new();
    let mut i: usize = 0;
    while i < messages.len()
        invariant
            i <= messages@.len(),
            out@.map_values(|m: QwenMessage| message_view(m)) == outgoing(
                messages@.subrange(0, i as int),
            ),
        decreases messages@.len() - i,
    {
        let m = &messages[i];
        let ghost sub = messages@.subrange(0, i + 1);
        assert(sub.drop_last() =~= messages@.subrange(0, i as int));
        let role = match m.role {
            Role::System => None,
            Role::User => Some(String::from_str("user")),
            Role::Assistant => Some(String::from_str("assistant")),
        };
        match role {
            Some(name) => {
                let ghost before = out@;
                out.push(QwenMessage { role: Some(name), content: Some(m.content.clone()) });
                assert(out@.map_values(|m: QwenMessage| message_view(m)) =~= before.map_values(
                    |m: QwenMessage| message_view(m),
                ).push(message_view(out@.last())));
            },
            None => {},
        }
        i = i + 1;
    }
    assert(messages@.subrange(0, messages@.len() as int) =~= messages@);
    let model = match find_field(&config.body, "model") {
        Some(v) => FieldValue::Json(v),
        None => FieldValue::Text(String::from_str(DEFAULT_MODEL)),
    };
    let max_tokens = match find_field(&config.body, "max_tokens") {
        Some(v) => FieldValue::Json(v),
        None => FieldValue::Integer(DEFAULT_MAX_TOKENS),
    };
    let mut extra: Vec<(String, serde_json::Value)> = Vec::new();
    let mut k: usize = 0;
    while k < config.body.len()
        invariant
            k <= config.body@.len(),
            extra@ == extra_fields(config.body@.subrange(0, k as int)),
        decreases config.body@.len() - k,
    {
        let ghost sub = config.body@.subrange(0, k + 1);
        assert(sub.drop_last() =~= config.body@.subrange(0, k as int));
        if !is_composed_key(&config.body[k].0) {
            extra.push((config.body[k].0.clone(), config.body[k].1.clone()));
        }
        k = k + 1;
    }
    assert(config.body@.subrange(0, config.body@.len() as int) =~= config.body@);
    QwenRequest { messages: out, stream, model, max_tokens, extra }
}

/// No system turn is sent: every message of a composed request is a user or
/// an assistant turn, never a system one.
pub proof fn lemma_no_system_turns(ms: Seq<Message>)
    ensures
        forall|i: int|
            0 <= i < outgoing(ms).len() ==> {
                let role = (#[trigger] outgoing(ms)[i]).0;
                &&& role == Some("user"@) || role == Some("assistant"@)
                &&& role != Some("system"@)
            },
    decreases ms.len(),
{
    reveal_strlit("user");
    reveal_strlit("assistant");
    reveal_strlit("system");
    if ms.len() > 0 {
        let prev = outgoing(ms.drop_last());
        lemma_no_system_turns(ms.drop_last());
        assert forall|i: int| 0 <= i < outgoing(ms).len() implies {
            let role = (#[trigger] outgoing(ms)[i]).0;
            &&& role == Some("user"@) || role == Some("assistant"@)
            &&& role != Some("system"@)
        } by {
            if i < prev.len() {
                assert(outgoing(ms)[i] == prev[i]);
            } else {
                assert(ms.last().role != Role::System);
                assert("user"@.len() == 4);
                assert("assistant"@.len() == 9);
                assert("system"@.len() == 6);
            }
        }
    }
}

/// A configuration cannot override the reserved keys: none of the fields
/// carried over from it is named "stream", "messages" or "system" (nor
/// "model" or "max_tokens", which have fields of their own).
pub proof fn lemma_reserved_keys_protected(body: Seq<(String, serde_json::Value)>)
    ensures
        forall|i: int|
            0 <= i < extra_fields(body).len() ==> !is_composed(
                (#[trigger] extra_fields(body)[i]).0@,
            ),
        forall|i: int|
            0 <= i < extra_fields(body).len() ==> !is_reserved(
                (#[trigger] extra_fields(body)[i]).0@,
            ),
    decreases body.len(),
{
    if body.len() > 0 {
        let prev = extra_fields(body.drop_last());
        lemma_reserved_keys_protected(body.drop_last());
        assert forall|i: int| 0 <= i < extra_fields(body).len() implies !is_composed(
            (#[trigger] extra_fields(body)[i]).0@,
        ) by {
            if i < prev.len() {
                assert(extra_fields(body)[i] == prev[i]);
            }
        }
    }
}

} // verus!
