//! Posts to Discord.

use vstd::prelude::*;

use crate::error::LimitcutError;
use crate::instapost::ValidatedInstapostJson;
use crate::text::{
    cat3, cat4, contains, law_nothing_to_replace, lemma_occurs_inside, occurs, replace, replaced,
    trim, trimmed,
};

verus! {

/// What stands for the webhook's address in messages.
pub const REDACTED_WEBHOOK_TARGET: &'static str = "configured Discord webhook";

/// The text of [`format_instapost_message`].
pub open spec fn message_text<P>(json: ValidatedInstapostJson<P>) -> Seq<char> {
    match json.player_name {
        Some(player) => "**"@ + json.title() + "**\nPlayer: "@ + player@,
        None => "**"@ + json.title() + "**"@,
    }
}

/// The message that goes with a clip: its title, and the player if known.
pub fn format_instapost_message<P>(json_meta: &ValidatedInstapostJson<P>) -> (r: String)
    ensures
        r@ == message_text(*json_meta),
{
    let title = json_meta.default_title();
    match &json_meta.player_name {
        Some(player) => cat4("**", title.as_str(), "**\nPlayer: ", player.as_str()),
        None => cat3("**", title.as_str(), "**"),
    }
}

// ── Payload ──────────────────────────────────────────────────────────────

/// A lower-case hexadecimal digit.
pub open spec fn hex_digit(n: int) -> char {
    if n < 10 {
        (48 + n) as char
    } else {
        (87 + n) as char
    }
}

/// What stands for a character in a JSON string.
pub open spec fn json_char(c: char) -> Seq<char> {
    if c == '"' {
        seq!['\\', '"']
    } else if c == '\\' {
        seq!['\\', '\\']
    } else if c == '\n' {
        seq!['\\', 'n']
    } else if c == '\r' {
        seq!['\\', 'r']
    } else if c == '\t' {
        seq!['\\', 't']
    } else if c as u32 == 8 {
        seq!['\\', 'b']
    } else if c as u32 == 12 {
        seq!['\\', 'f']
    } else if (c as u32) < 32 {
        seq!['\\', 'u', '0', '0', hex_digit(c as int / 16), hex_digit(c as int % 16)]
    } else {
        seq![c]
    }
}

/// What stands between the quotes of a JSON string.
pub open spec fn json_chars(s: Seq<char>) -> Seq<char>
    decreases s.len(),
{
    if s.len() == 0 {
        Seq::empty()
    } else {
        json_chars(s.drop_last()) + json_char(s.last())
    }
}

/// A text as a JSON string.
pub open spec fn json_string(s: Seq<char>) -> Seq<char> {
    seq!['"'] + json_chars(s) + seq!['"']
}

/// serde_json's `Value::to_string`, on an object with one member that is a string.
///
/// It writes the compact form: a brace, the name, a colon, the value and a
/// brace, with nothing between them. Name and value stand in quotes. In them a
/// quote, a backslash and the control codes below the space are escaped, those
/// that have one by a letter and the others by their number in four
/// hexadecimal digits; all other characters stand as they are.
#[verifier::external_body]
fn object_text(name: &str, value: &str) -> (r: String)
    ensures
        r@ == seq!['{'] + json_string(name@) + seq![':'] + json_string(value@) + seq!['}'],
{
    let mut members = serde_json::Map::new();
    members.insert(name.to_owned(), serde_json::Value::String(value.to_owned()));
    serde_json::Value::Object(members).to_string()
}

/// The `payload_json` part of a post.
pub fn payload<P>(json_meta: &ValidatedInstapostJson<P>) -> (r: String)
    ensures
        r@ == seq!['{'] + json_string("content"@) + seq![':'] + json_string(
            message_text(*json_meta),
        ) + seq!['}'],
{
    object_text("content", format_instapost_message(json_meta).as_str())
}

// ── Outcome ──────────────────────────────────────────────────────────────

/// What came of sending a post.
#[derive(Debug)]
pub enum UploadReply {
    /// It could not be sent.
    NotSent { error: String },
    /// It was answered, with this status and this text.
    Answered { success: bool, status: String, body: String },
}

/// What stands for a message that cannot be told without the address.
pub const WITHHELD: &'static str = "details withheld";

/// The text of an error with this message.
pub open spec fn failure_text(message: Seq<char>) -> Seq<char> {
    "Discord upload to "@ + REDACTED_WEBHOOK_TARGET@ + " failed: "@ + message
}

/// A message with [`REDACTED_WEBHOOK_TARGET`] for the address; [`WITHHELD`]
/// where the address would stand in the text of the error all the same.
pub open spec fn redacted(message: Seq<char>, webhook: Seq<char>) -> Seq<char> {
    let told = replaced(message, webhook, REDACTED_WEBHOOK_TARGET@);
    if webhook.len() > 0 && occurs(failure_text(told), webhook) {
        WITHHELD@
    } else {
        told
    }
}

fn redact(message: &str, webhook: &str) -> (r: String)
    ensures
        r@ == redacted(message@, webhook@),
{
    let told = replace(message, webhook, REDACTED_WEBHOOK_TARGET);
    let text = cat4(
        "Discord upload to ",
        REDACTED_WEBHOOK_TARGET,
        " failed: ",
        told.as_str(),
    );
    if !webhook.is_empty() && contains(text.as_str(), webhook) {
        WITHHELD.to_owned()
    } else {
        told
    }
}

/// What is told of a reply that is no success.
pub open spec fn reply_text(reply: UploadReply) -> Seq<char> {
    match reply {
        UploadReply::NotSent { error } => error@,
        UploadReply::Answered { status, body, .. } => "HTTP "@ + status@ + ": "@ + trimmed(body@),
    }
}

/// What the reply to a post means. The text of the error never holds the
/// address that was posted to, unless the words do that every such error has.
pub fn upload_outcome(reply: UploadReply, webhook: &str) -> (r: Result<(), LimitcutError>)
    ensures
        r is Ok <==> (reply matches UploadReply::Answered { success, .. } && success),
        r matches Err(e) ==> {
            &&& e matches LimitcutError::DiscordUploadFailed { url, message } && url@
                == REDACTED_WEBHOOK_TARGET@ && message@ == redacted(reply_text(reply), webhook@)
            &&& webhook@.len() > 0 && !occurs(failure_text(WITHHELD@), webhook@) ==> !occurs(
                e.text(),
                webhook@,
            )
        },
{
    let told = match &reply {
        UploadReply::NotSent { error } => error.as_str().to_owned(),
        UploadReply::Answered { success, status, body } => {
            if *success {
                return Ok(());
            }
            cat4("HTTP ", status.as_str(), ": ", trim(body.as_str()).as_str())
        },
    };
    Err(
        LimitcutError::DiscordUploadFailed {
            url: REDACTED_WEBHOOK_TARGET.to_owned(),
            message: redact(told.as_str(), webhook),
        },
    )
}

// ── Laws ─────────────────────────────────────────────────────────────────

/// A message is told as it is where it does not bring the address into the
/// text of the error.
pub proof fn law_message_without_address_is_kept(message: Seq<char>, webhook: Seq<char>)
    requires
        !occurs(failure_text(message), webhook),
    ensures
        redacted(message, webhook) == message,
{
    if occurs(message, webhook) {
        let front = "Discord upload to "@ + REDACTED_WEBHOOK_TARGET@ + " failed: "@;
        lemma_occurs_inside(front, message, Seq::empty(), webhook);
        assert(front + message + Seq::empty() =~= failure_text(message));
    }
    law_nothing_to_replace(message, webhook, REDACTED_WEBHOOK_TARGET@);
}

proof fn lemma_json_char(c: char)
    ensures
        forall|i: int| 0 <= i < json_char(c).len() ==> 32 <= (#[trigger] json_char(c)[i]) as u32,
{
}

/// A JSON string holds no control code below the space, whatever the text.
pub proof fn law_json_string_is_printable(s: Seq<char>)
    ensures
        forall|i: int| 0 <= i < json_string(s).len() ==> 32 <= (#[trigger] json_string(s)[i]) as u32,
    decreases s.len(),
{
    if s.len() > 0 {
        law_json_string_is_printable(s.drop_last());
        lemma_json_char(s.last());
        let before = json_chars(s.drop_last());
        let j = json_string(s);
        assert forall|i: int| 0 <= i < j.len() implies 32 <= (#[trigger] j[i]) as u32 by {
            if 1 <= i < 1 + before.len() {
                assert(j[i] == json_string(s.drop_last())[i]);
            } else if 1 + before.len() <= i < j.len() - 1 {
                assert(j[i] == json_char(s.last())[i - 1 - before.len()]);
            }
        }
    }
}

/// What goes with a clip: its title in bold, and below it the player, if known.
pub proof fn law_message_of_a_clip<P>(json: ValidatedInstapostJson<P>)
    ensures
        json.player_name is None ==> message_text(json) == "**"@ + json.title() + "**"@,
        json.player_name is Some ==> message_text(json) == "**"@ + json.title() + "**\nPlayer: "@
            + json.player_name->0@,
{
}

/// A text is written in a JSON string piece by piece.
pub proof fn law_json_string_in_pieces(a: Seq<char>, b: Seq<char>)
    ensures
        json_string(a) == seq!['"'] + json_chars(a) + seq!['"'],
        json_chars(a + b) == json_chars(a) + json_chars(b),
    decreases b.len(),
{
    if b.len() == 0 {
        assert(a + b =~= a);
        assert(json_chars(a) + json_chars(b) =~= json_chars(a));
    } else {
        law_json_string_in_pieces(a, b.drop_last());
        assert((a + b).drop_last() =~= a + b.drop_last());
        assert((a + b).last() == b.last());
        assert(json_chars(a + b) =~= json_chars(a) + json_chars(b));
    }
}

/// What stands for one character in a JSON string: itself, but for quotes and
/// backslashes, which have a backslash before them, and control codes, of which
/// five have a letter and the others their number.
pub proof fn law_json_character(c: char)
    ensures
        c >= ' ' && c != '"' && c != '\\' ==> json_chars(seq![c]) == seq![c],
        c == '"' || c == '\\' ==> json_chars(seq![c]) == seq!['\\', c],
        c == '\n' ==> json_chars(seq![c]) == seq!['\\', 'n'],
        c == '\r' ==> json_chars(seq![c]) == seq!['\\', 'r'],
        c == '\t' ==> json_chars(seq![c]) == seq!['\\', 't'],
        c == '\u{8}' ==> json_chars(seq![c]) == seq!['\\', 'b'],
        c == '\u{c}' ==> json_chars(seq![c]) == seq!['\\', 'f'],
        c < ' ' && c != '\n' && c != '\r' && c != '\t' && c != '\u{8}' && c != '\u{c}' ==> ({
            let j = json_chars(seq![c]);
            let high = if c as int / 16 == 0 {
                '0'
            } else {
                '1'
            };
            let low = c as int - (if c as int / 16 == 0 {
                0int
            } else {
                16
            });
            &&& j.len() == 6
            &&& j.take(5) == seq!['\\', 'u', '0', '0', high]
            &&& j[5] as int == if low < 10 {
                '0' as int + low
            } else {
                'a' as int + low - 10
            }
        }),
{
    let one = seq![c];
    assert(one.drop_last() =~= Seq::empty());
    assert(json_chars(one.drop_last()) =~= Seq::empty());
    assert(json_chars(one) =~= json_char(c));
    if ' ' > c {
        let j = json_chars(one);
        let high = if c as int / 16 == 0 {
            '0'
        } else {
            '1'
        };
        if j.len() == 6 {
            assert(c as int / 16 == 0 || c as int / 16 == 1);
            assert(j.take(5) =~= seq!['\\', 'u', '0', '0', high]);
        }
    }
}

/// What is told of a message that holds the address: the same with other words
/// in its place, or that it is withheld where the address would still stand in
/// the text of the error.
pub proof fn law_address_is_replaced_or_all_withheld(message: Seq<char>, webhook: Seq<char>)
    ensures
        webhook.len() == 0 ==> redacted(message, webhook) == message,
        webhook.len() > 0 ==> ({
            let told = replaced(message, webhook, "configured Discord webhook"@);
            let shown = "Discord upload to "@ + "configured Discord webhook"@ + " failed: "@ + told;
            redacted(message, webhook) == if occurs(shown, webhook) {
                "details withheld"@
            } else {
                told
            }
        }),
{
}

/// What is told of a post: why it was not sent, or the status and the text that
/// it was answered with.
pub proof fn law_reply_is_told(reply: UploadReply)
    ensures
        reply is NotSent ==> reply_text(reply) == reply->error@,
        reply is Answered ==> reply_text(reply) == "HTTP "@ + reply->status@ + ": "@ + trimmed(
            reply->body@,
        ),
{
}

} // verus!
