use std::path::PathBuf;

use limitcut::discord::{
    format_instapost_message, payload, upload_outcome, UploadReply, REDACTED_WEBHOOK_TARGET,
};
use limitcut::error::LimitcutError;
use limitcut::instapost::ValidatedInstapostJson;
use limitcut::timestamp::Timestamp;

fn plain(encounter: &str) -> ValidatedInstapostJson<PathBuf> {
    ValidatedInstapostJson {
        json_path: PathBuf::from("instapost.json"),
        started_at: Timestamp::parse("2026-06-02T19:07:02.8897222+02:00").unwrap(),
        replay_buffer: PathBuf::from("Replay.mkv"),
        job: None,
        encounter: Some(encounter.to_owned()),
        territory_name: None,
        territory_type: Some(1185),
        is_in_combat: Some(false),
        player_name: None,
    }
}

#[test]
fn format_message_includes_basic_metadata() {
    let json = ValidatedInstapostJson {
        json_path: PathBuf::from("instapost.json"),
        started_at: Timestamp::parse("2026-06-02T19:07:02.8897222+02:00").unwrap(),
        replay_buffer: PathBuf::from("Replay.mkv"),
        job: Some("RPR".to_owned()),
        encounter: Some("The Futures Rewritten".to_owned()),
        territory_name: Some("Solution Nine".to_owned()),
        territory_type: Some(1185),
        is_in_combat: Some(false),
        player_name: Some("M'iu Bittermoon".to_owned()),
    };

    let message = format_instapost_message(&json);
    assert!(message.contains("**The Futures Rewritten/RPR POV**"));
    assert!(message.contains("Player: M'iu Bittermoon"));
    assert!(!message.contains("Started:"));
    assert!(!message.contains("Combat:"));
    assert_eq!(
        message,
        "**The Futures Rewritten/RPR POV**\nPlayer: M'iu Bittermoon"
    );
}

#[test]
fn format_message_omits_player_line_when_missing() {
    let json = plain("Tuliyollal");
    let message = format_instapost_message(&json);
    assert_eq!(message, "**Tuliyollal POV**");
}

#[test]
fn discord_errors_use_redacted_target() {
    let err = LimitcutError::DiscordUploadFailed {
        url: REDACTED_WEBHOOK_TARGET.to_owned(),
        message: "boom".to_owned(),
    };
    let rendered = err.message();
    assert!(rendered.contains(REDACTED_WEBHOOK_TARGET));
    assert!(!rendered.contains("discord.com/api/webhooks"));
}

const WEBHOOK: &str = "https://discord.com/api/webhooks/1/abc";

#[test]
fn upload_failures_use_redacted_target() {
    assert_eq!(
        upload_outcome(
            UploadReply::NotSent {
                error: "no route".to_owned()
            },
            WEBHOOK
        )
        .unwrap_err()
        .message(),
        "Discord upload to configured Discord webhook failed: no route"
    );
    assert_eq!(
        upload_outcome(
            UploadReply::Answered {
                success: false,
                status: "413 Payload Too Large".to_owned(),
                body: " too big \n".to_owned()
            },
            WEBHOOK
        )
        .unwrap_err()
        .message(),
        "Discord upload to configured Discord webhook failed: HTTP 413 Payload Too Large: too big"
    );
    assert!(upload_outcome(
        UploadReply::Answered {
            success: true,
            status: "200 OK".to_owned(),
            body: "x".to_owned()
        },
        WEBHOOK
    )
    .is_ok());
}

#[test]
fn upload_failures_never_tell_the_address() {
    let told = |reply: UploadReply, webhook: &str| {
        upload_outcome(reply, webhook).unwrap_err().message()
    };
    let not_sent = |error: String| UploadReply::NotSent { error };
    assert_eq!(
        told(
            not_sent(format!("error sending request for url ({WEBHOOK})")),
            WEBHOOK
        ),
        "Discord upload to configured Discord webhook failed: \
         error sending request for url (configured Discord webhook)"
    );
    let body = format!(" {WEBHOOK} and {WEBHOOK}: gone ");
    assert_eq!(
        told(
            UploadReply::Answered {
                success: false,
                status: "404 Not Found".to_owned(),
                body
            },
            WEBHOOK
        ),
        "Discord upload to configured Discord webhook failed: HTTP 404 Not Found: \
         configured Discord webhook and configured Discord webhook: gone"
    );
    // what is put together around the message would tell it
    assert_eq!(
        told(not_sent("q".to_owned()), "ed: q"),
        "Discord upload to configured Discord webhook failed: details withheld"
    );
    assert_eq!(
        told(not_sent("no route".to_owned()), ""),
        "Discord upload to configured Discord webhook failed: no route"
    );
}

#[test]
fn payload_is_json() {
    assert_eq!(
        payload(&plain("Tuliyollal")),
        "{\"content\":\"**Tuliyollal POV**\"}"
    );
    assert_eq!(
        payload(&plain("\"a\\b/c\u{1}\u{8}\u{c}\n\r\t\u{1f}\u{7f}\u{e9}\u{1F600}")),
        "{\"content\":\"**\\\"a\\\\b/c\\u0001\\b\\f\\n\\r\\t\\u001f\u{7f}\u{e9}\u{1F600} POV**\"}"
    );
}

#[test]
fn payload_reads_back() {
    let mut all = String::new();
    for c in (0u32..0x300).filter_map(char::from_u32) {
        all.push(c);
    }
    let json = plain(&all);
    let text = payload(&json);
    assert!(text.chars().all(|c| c as u32 >= 32));
    let value: serde_json::Value = serde_json::from_str(&text).unwrap();
    assert_eq!(
        value.get("content").and_then(|v| v.as_str()),
        Some(format_instapost_message(&json).as_str())
    );
}
