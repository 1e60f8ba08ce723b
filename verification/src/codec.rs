//! The wire format of an envelope.
//!
//! A frame is one JSON object with two string members, `channel` and `data`:
//! `{"channel":"<key>","data":"<payload>"}`. JSON itself is read and written
//! by `serde_json`; this module fixes the shape of the frame around it.

use vstd::prelude::*;
use vstd::string::StringExecFns;
use crate::message::{Error, Message, MessageView};

verus! {

/// One member of a parsed JSON object: its name, and its text where the
/// member's value is a JSON string.
pub type Member = (String, Option<String>);

/// The mathematical value of a [`Member`].
pub type MemberModel = (Seq<char>, Option<Seq<char>>);

/// The JSON text that `serde_json::to_string` writes for the string `s`: the
/// string in double quotes, with its escapes.
pub uninterp spec fn json_string_text(s: Seq<char>) -> Seq<char>;

/// What `serde_json::from_str` reads from `text` as a `serde_json::Value`,
/// seen from the top: where the value is an object, its members in the order
/// in which `serde_json` hands them out, each with its text if its value is a
/// string; `None` where reading fails or the value is no object.
pub uninterp spec fn json_object_members(text: Seq<char>) -> Option<Seq<MemberModel>>;

/// The model of one parsed member.
pub open spec fn member_model(m: Member) -> MemberModel {
    (
        m.0@,
        match m.1 {
            Some(s) => Some(s@),
            None => None,
        },
    )
}

/// The model of a list of parsed members.
pub open spec fn members_model(members: Seq<Member>) -> Seq<MemberModel> {
    Seq::new(members.len(), |i: int| member_model(members[i]))
}

/// The model of what parsing gave: the members of an object, or nothing.
pub open spec fn parsed_model(parsed: Option<Vec<Member>>) -> Option<Seq<MemberModel>> {
    match parsed {
        Some(members) => Some(members_model(members@)),
        None => None,
    }
}

/// The frame as text, around the JSON texts of its two strings.
pub open spec fn frame_around(channel_text: Seq<char>, data_text: Seq<char>) -> Seq<char> {
    "{\"channel\":"@ + channel_text + ",\"data\":"@ + data_text + "}"@
}

/// The frame that carries `data` on `channel`.
pub open spec fn frame_text(channel: Seq<char>, data: Seq<char>) -> Seq<char> {
    frame_around(json_string_text(channel), json_string_text(data))
}

/// The members of the frame that carries `data` on `channel`.
pub open spec fn frame_members(channel: Seq<char>, data: Seq<char>) -> Seq<MemberModel> {
    seq![("channel"@, Some(channel)), ("data"@, Some(data))]
}

/// Whether `parsed` is a faithful reading of `text` where `text` is a written
/// frame: the frame of any two strings reads as the members of those two.
pub open spec fn reads_back(text: Seq<char>, parsed: Option<Seq<MemberModel>>) -> bool {
    forall|c: Seq<char>, d: Seq<char>|
        text == #[trigger] frame_text(c, d) ==> parsed == Some(frame_members(c, d))
}

/// The text of the first member called `name`, if that member is a string.
pub open spec fn member_text(members: Seq<MemberModel>, name: Seq<char>) -> Option<Seq<char>>
    decreases members.len(),
{
    if members.len() == 0 {
        None
    } else if members[0].0 == name {
        members[0].1
    } else {
        member_text(members.drop_first(), name)
    }
}

/// The envelope that a list of members holds: both `channel` and `data` must
/// be there, each as a string.
pub open spec fn envelope_in(members: Seq<MemberModel>) -> Option<MessageView> {
    match (member_text(members, "channel"@), member_text(members, "data"@)) {
        (Some(channel), Some(data)) => Some(MessageView { channel, data }),
        _ => None,
    }
}

/// The envelope that a frame's text holds, if it is a well-formed frame.
pub open spec fn decoded(text: Seq<char>) -> Option<MessageView> {
    match json_object_members(text) {
        Some(members) => envelope_in(members),
        None => None,
    }
}

/// The text of the error that `decode` gives for a malformed frame.
pub open spec fn malformed_text() -> Seq<char> {
    "malformed frame"@
}

/// Calls `serde_json::to_string` on a string slice. Trusted: the call
/// succeeds, and the text that comes back is the one that
/// [`json_string_text`] names. `serde_json` fails to serialize only where the
/// value's own `Serialize` fails, where a map has a key that is no string, or
/// where writing fails; a string written to memory meets none of these.
#[verifier::external_body]
fn json_quote(s: &str) -> (r: Result<String, String>)
    ensures
        r is Ok,
        r matches Ok(t) ==> t@ == json_string_text(s@),
{
    match serde_json::to_string(s) {
        Ok(t) => Ok(t),
        Err(e) => Err(e.to_string()),
    }
}

/// Calls `serde_json::from_str` for a `serde_json::Value` and hands out the
/// members of a top-level object. Trusted, of the first clause: what comes
/// back is what [`json_object_members`] names. Trusted, of the second clause
/// ([`reads_back`]): `serde_json` reads back what it wrote, that is, on a
/// frame whose two strings `serde_json::to_string` has written, it finds the
/// two members `channel` and `data`, in this order, holding those strings.
#[verifier::external_body]
fn parse_object(text: &str) -> (r: Option<Vec<Member>>)
    ensures
        parsed_model(r) == json_object_members(text@),
        reads_back(text@, parsed_model(r)),
{
    match serde_json::from_str::<serde_json::Value>(text) {
        Ok(serde_json::Value::Object(map)) => {
            let mut members = Vec::new();
            for (name, value) in map {
                let text = match value {
                    serde_json::Value::String(s) => Some(s),
                    _ => None,
                };
                members.push((name, text));
            }
            Some(members)
        },
        _ => None,
    }
}

/// A frame's two members are found in it under their names.
pub proof fn lemma_frame_members(channel: Seq<char>, data: Seq<char>)
    ensures
        envelope_in(frame_members(channel, data)) == Some(MessageView { channel, data }),
{
    reveal_strlit("channel");
    reveal_strlit("data");
    let members = frame_members(channel, data);
    assert("channel"@.len() != "data"@.len());
    assert(members.drop_first()[0] == ("data"@, Some(data)));
    assert(member_text(members.drop_first(), "data"@) == Some(data));
}

/// Looks a member up by its name: the text of the first member called `name`,
/// if its value is a string.
pub fn find_member(members: &Vec<Member>, name: &String) -> (found: Option<String>)
    ensures
        found matches Some(s) ==> member_text(members_model(members@), name@) == Some(s@),
        found is None ==> member_text(members_model(members@), name@) is None,
{
    let ghost model = members_model(members@);
    proof {
        assert(model.skip(0) =~= model);
    }
    let mut i: usize = 0;
    while i < members.len()
        invariant
            i <= members.len(),
            model == members_model(members@),
            member_text(model, name@) == member_text(model.skip(i as int), name@),
        decreases members.len() - i,
    {
        proof {
            reveal_with_fuel(member_text, 2);
            assert(model.skip(i as int).drop_first() =~= model.skip(i as int + 1));
            assert(model.skip(i as int)[0] == member_model(members@[i as int]));
        }
        if members[i].0 == *name {
            return match &members[i].1 {
                Some(s) => Some(s.clone()),
                None => None,
            };
        }
        i = i + 1;
    }
    None
}

/// Reads the envelope out of the members of a parsed frame.
pub fn envelope_of(members: &Vec<Member>) -> (r: Option<Message>)
    ensures
        r matches Some(m) ==> envelope_in(members_model(members@)) == Some(m@),
        r is None ==> envelope_in(members_model(members@)) is None,
{
    let channel_name = String::from_str("channel");
    let data_name = String::from_str("data");
    match find_member(members, &channel_name) {
        Some(channel) => match find_member(members, &data_name) {
            Some(data) => Some(Message::new(channel, data)),
            None => None,
        },
        None => None,
    }
}

/// Puts the frame together around the JSON texts of its two strings.
pub fn assemble(channel_text: &str, data_text: &str) -> (frame: String)
    ensures
        frame@ == frame_around(channel_text@, data_text@),
{
    let mut frame = String::from_str("{\"channel\":");
    frame.append(channel_text);
    frame.append(",\"data\":");
    frame.append(data_text);
    frame.append("}");
    frame
}

/// Writes an envelope as one frame.
///
/// The frame is [`frame_text`] of the envelope's two strings. Every envelope
/// can be written: [`Error::Serde`] stands for `serde_json` refusing a string,
/// which it never does.
pub fn encode(msg: &Message) -> (r: Result<String, Error>)
    ensures
        r matches Ok(frame) && frame@ == frame_text(msg@.channel, msg@.data),
{
    let channel_text = match json_quote(msg.channel().as_str()) {
        Ok(t) => t,
        Err(e) => {
            return Err(Error::Serde(e));
        },
    };
    let data_text = match json_quote(msg.data().as_str()) {
        Ok(t) => t,
        Err(e) => {
            return Err(Error::Serde(e));
        },
    };
    Ok(assemble(channel_text.as_str(), data_text.as_str()))
}

/// Reads one frame.
///
/// The result is `Ok` exactly when the text is a JSON object whose members
/// `channel` and `data` are strings, and then holds those two strings. Every
/// other text gives [`Error::Receive`]. A frame that [`encode`] wrote decodes
/// to the envelope it was written from.
pub fn decode(text: &str) -> (r: Result<Message, Error>)
    ensures
        r matches Ok(m) ==> decoded(text@) == Some(m@),
        r matches Err(e) ==> decoded(text@) is None && e is Receive && e.detail() == malformed_text(),
        (forall|c: Seq<char>, d: Seq<char>|
            text@ == #[trigger] frame_text(c, d) ==> (r matches Ok(m) && m@ == (MessageView {
                channel: c,
                data: d,
            }))),
{
    let parsed = parse_object(text);
    proof {
        assert forall|c: Seq<char>, d: Seq<char>| text@ == #[trigger] frame_text(c, d) implies decoded(
            text@,
        ) == Some(MessageView { channel: c, data: d }) by {
            lemma_frame_members(c, d);
        }
    }
    let found = match parsed {
        Some(members) => envelope_of(&members),
        None => None,
    };
    match found {
        Some(m) => Ok(m),
        None => Err(Error::Receive(String::from_str("malformed frame"))),
    }
}

} // verus!
