use adaclaw::channels::base::BaseChannel;
use adaclaw::channels::cli::CliChannel;
use adaclaw::channels::config::{get_number_or, get_setting, get_setting_or};
use adaclaw::channels::discord::{
    heartbeat, reconnect_delay, send_outcome, split_discord_message, DiscordChannel,
    GatewayAction, GatewayFrame, SendOutcome, DEFAULT_INTENTS,
};
use adaclaw::channels::email::{
    draft_of_email, extract_text_body, parse_email_message, parse_from_header, sequence_set,
    smtp_mode, EmailChannel, EmailError, EmailMessage, MailPart, SmtpMode, CONSENT_TEXT,
};
use adaclaw::channels::error::ChannelError;
use adaclaw::channels::manager::{ChannelManager, Dispatch};
use adaclaw::channels::matrix::{
    JoinedRoom, MatrixChannel, RoomEvent, SyncResponse, SyncRooms, Timeline,
};
use adaclaw::channels::telegram::{
    api_result, markdown_to_telegram_html, parse_approval, poll_body, send_message_body,
    startup_probe, PollState, ProbeStep, ReplyStep, TelegramAction, TelegramChannel,
    TgCallbackMessage, TgCallbackQuery, TgChat, TgMessage, TgUpdate, TgUser, THINKING_TEXT,
};
use adaclaw::json::{parse_json, Json};
use adaclaw::model::channel::{Channel, InboundMessage, MessageContent, OutboundMessage};

fn text_of(message: &InboundMessage) -> &str {
    match &message.content {
        MessageContent::Text(t) => t,
        other => panic!("{:?}", other),
    }
}

fn outbound(channel: &str, session: &str, text: &str) -> OutboundMessage {
    OutboundMessage {
        id: "o1".to_string(),
        target_channel: channel.to_string(),
        target_session_id: session.to_string(),
        content: MessageContent::Text(text.to_string()),
        reply_to: None,
    }
}

fn settings(pairs: &[(&str, &str)]) -> Vec<(String, String)> {
    pairs
        .iter()
        .map(|(k, v)| (k.to_string(), v.to_string()))
        .collect()
}

// ---- settings, the terminal and the manager ----

#[test]
fn settings_have_defaults() {
    let extra = settings(&[("port", "8080"), ("path", "/x"), ("bad", "12a")]);
    assert_eq!(get_setting(&extra, "path"), Some("/x".to_string()));
    assert_eq!(get_setting(&extra, "none"), None);
    assert_eq!(get_setting_or(&extra, "none", "/y"), "/y");
    assert_eq!(get_number_or(&extra, "port", 65535, 80), 8080);
    assert_eq!(get_number_or(&extra, "port", 255, 80), 80);
    assert_eq!(get_number_or(&extra, "bad", 65535, 80), 80);
}

#[test]
fn lines_of_the_terminal_are_messages() {
    let cli = CliChannel::new();
    assert_eq!(text_of(&cli.start(" hello ").unwrap()), "hello");
    assert!(cli.start("   ").is_none());
    assert!(CliChannel::send(&cli, &outbound("cli", "s", "answer")).contains("answer"));
}

#[test]
fn replies_go_to_the_channel_they_name() {
    let mut manager: ChannelManager<CliChannel> = ChannelManager::new();
    manager.register_channel(CliChannel::new());
    assert_eq!(manager.enabled_channels(), vec!["cli"]);
    assert!(manager.get("cli").is_some());
    assert!(matches!(
        manager.outbound_dispatch(&outbound("cli", "s", "x")),
        Dispatch::Deliver(_)
    ));
    assert!(matches!(
        manager.outbound_dispatch(&outbound("fax", "s", "x")),
        Dispatch::Unknown
    ));
    manager.unregister_channel("cli");
    assert!(manager.get("cli").is_none());
    assert!(manager.get_status().is_empty());
}

#[test]
fn channels_are_known_by_their_names() {
    assert_eq!(CliChannel::new().name(), "cli");
    assert_eq!(TelegramChannel::new("t".to_string()).name(), "telegram");
}

#[test]
fn channel_errors_say_what_failed() {
    assert_eq!(
        ChannelError::Auth("bad token".to_string()).to_text(),
        "Authentication error: bad token"
    );
}

#[test]
fn drafts_of_strangers_are_dropped() {
    let base = BaseChannel::new("x").with_allow_from(vec!["ann".to_string()]);
    let message = base
        .handle_message("ann", "Ann", "s1", "hi", vec![])
        .unwrap();
    assert_eq!(message.channel, "x");
    assert_eq!(message.session_id, "s1");
    assert!(base.handle_message("bob", "Bob", "s1", "hi", vec![]).is_none());
}

// ---- Discord ----

fn discord() -> DiscordChannel {
    DiscordChannel::new("abc".to_string(), vec!["u1".to_string()], None)
}

fn created(author: &str, content: &str) -> GatewayFrame {
    GatewayFrame::Text(format!(
        "{{\"op\":0,\"t\":\"MESSAGE_CREATE\",\"d\":{{\"id\":\"m1\",\"channel_id\":\"c1\",\"content\":\"{}\",\"author\":{}}}}}",
        content, author
    ))
}

#[test]
fn discord_says_hello() {
    let channel = discord();
    assert_eq!(channel.intents, DEFAULT_INTENTS);
    assert_eq!(channel.auth_header(), "Bot abc");
    let hello = GatewayFrame::Text("{\"op\":10,\"d\":{\"heartbeat_interval\":41250}}".to_string());
    match channel.run_gateway_session(&hello) {
        GatewayAction::Identify { text, heartbeat_ms } => {
            assert_eq!(heartbeat_ms, 41250);
            let sent = parse_json(&text).unwrap();
            assert_eq!(sent.field("op").as_u64(), Some(2));
            assert_eq!(sent.field("d").field("token").as_str(), Some("abc"));
        }
        _ => panic!("another action"),
    }
    let beat = parse_json(&heartbeat()).unwrap();
    assert_eq!(beat.field("op").as_u64(), Some(1));
    assert!(beat.field("d").is_null());
}

#[test]
fn discord_messages_are_handed_on() {
    let channel = discord();
    match channel.run_gateway_session(&created("{\"id\":\"u1\",\"username\":\"Ann\"}", " hi ")) {
        GatewayAction::Deliver { channel_id, message } => {
            assert_eq!(channel_id, "c1");
            let message = message.unwrap();
            assert_eq!(text_of(&message), "hi");
            assert_eq!(message.sender_name, "Ann");
        }
        _ => panic!("another action"),
    }
    let stranger = created("{\"id\":\"u2\"}", "hi");
    assert!(matches!(
        channel.run_gateway_session(&stranger),
        GatewayAction::Deliver { message: None, .. }
    ));
    let bot = created("{\"id\":\"u1\",\"bot\":true}", "hi");
    assert!(matches!(channel.run_gateway_session(&bot), GatewayAction::Wait));
}

#[test]
fn discord_sessions_end_or_reconnect() {
    let channel = discord();
    let reconnect = GatewayFrame::Text("{\"op\":7}".to_string());
    assert!(matches!(
        channel.run_gateway_session(&reconnect),
        GatewayAction::Reconnect { after_secs: 0 }
    ));
    let invalid = GatewayFrame::Text("{\"op\":9}".to_string());
    assert!(matches!(
        channel.run_gateway_session(&invalid),
        GatewayAction::Reconnect { after_secs: 5 }
    ));
    assert!(matches!(channel.run_gateway_session(&GatewayFrame::Close), GatewayAction::End));
    match channel.run_gateway_session(&GatewayFrame::TimedOut) {
        GatewayAction::Fail(e) => assert_eq!(e, "Discord Gateway read timeout"),
        _ => panic!("another action"),
    }
    assert!(reconnect_delay(5, false) > 5);
}

#[test]
fn discord_replies_are_split() {
    let text = "a".repeat(2500);
    let (url, bodies) = discord().send_rest("c1", &text);
    assert_eq!(url, "https://discord.com/api/v10/channels/c1/messages");
    assert_eq!(bodies.len(), 2);
    let joined: String = bodies
        .iter()
        .map(|b| b.field("content").as_str().unwrap())
        .collect();
    assert_eq!(joined, text);
    assert_eq!(split_discord_message("hi", 2000), vec!["hi"]);
    assert_eq!(send_outcome(200), SendOutcome::Sent);
    assert_eq!(send_outcome(429), SendOutcome::RateLimited);
    assert_eq!(send_outcome(500), SendOutcome::Failed);
}

// ---- Matrix ----

fn matrix(allow: &[&str]) -> MatrixChannel {
    MatrixChannel::from_extra(
        Some("tok".to_string()),
        allow.iter().map(|s| s.to_string()).collect(),
        &settings(&[("homeserver", "https://m.org/"), ("user_id", "@bot:m.org")]),
    )
    .unwrap()
}

fn room_event(sender: &str, body: &str) -> RoomEvent {
    RoomEvent {
        event_id: Some("$e".to_string()),
        sender: Some(sender.to_string()),
        event_type: Some("m.room.message".to_string()),
        content: parse_json(&format!("{{\"msgtype\":\"m.text\",\"body\":\"{}\"}}", body)),
        origin_server_ts: Some(1),
    }
}

fn sync_of(events: Vec<RoomEvent>) -> SyncResponse {
    SyncResponse {
        next_batch: "b2".to_string(),
        rooms: Some(SyncRooms {
            join: Some(vec![(
                "!r:m.org".to_string(),
                JoinedRoom {
                    timeline: Some(Timeline {
                        events: Some(events),
                    }),
                },
            )]),
        }),
    }
}

#[test]
fn matrix_settings_are_read() {
    let channel = matrix(&[]);
    assert_eq!(channel.homeserver, "https://m.org");
    assert_eq!(channel.sync_timeout_ms, 30000);
    assert_eq!(channel.request_timeout_ms(), 40000);
    assert!(MatrixChannel::from_extra(None, vec![], &vec![]).is_err());
    assert!(MatrixChannel::from_extra(Some("t".to_string()), vec![], &vec![]).is_err());
}

#[test]
fn matrix_addresses_are_encoded() {
    let channel = matrix(&[]);
    assert_eq!(
        channel.sync_once(Some("a b/c")),
        "https://m.org/_matrix/client/v3/sync?timeout=30000&since=a%20b%2Fc"
    );
    let (url, body) = channel.message_request("!r:m.org", "hi", "t1");
    assert!(url.contains("%21r%3Am.org"));
    assert!(url.ends_with("t1"));
    assert_eq!(body.field("body").as_str(), Some("hi"));
    let (first, _) = channel.send_message("!r:m.org", "hi");
    let (second, _) = channel.send_message("!r:m.org", "hi");
    assert_ne!(first, second);
}

#[test]
fn matrix_hands_on_what_sender_or_room_allow() {
    let events = || vec![room_event("@ann:m.org", "one"), room_event("@bot:m.org", "two")];
    let (next, messages, _) = matrix(&["!r:m.org"]).start(Some("b1".to_string()), Some(sync_of(events())));
    assert_eq!(next, Some("b2".to_string()));
    assert_eq!(messages.len(), 1);
    assert_eq!(text_of(&messages[0]), "one");
    let (_, messages, _) =
        matrix(&["@ann:m.org"]).start(Some("b1".to_string()), Some(sync_of(events())));
    assert_eq!(messages.len(), 1);
    let (_, messages, _) =
        matrix(&["@eve:m.org"]).start(Some("b1".to_string()), Some(sync_of(events())));
    assert!(messages.is_empty());
    let (next, _, wait) = matrix(&[]).start(Some("b1".to_string()), None);
    assert_eq!(next, Some("b1".to_string()));
    assert_eq!(wait, 10);
}

// ---- e-mail ----

const MAIL: &[u8] = b"From: Ann Bee <ann@example.com>\r\nSubject: Hello\r\nMessage-ID: <1@x>\r\nContent-Type: multipart/alternative; boundary=\"b\"\r\n\r\n--b\r\nContent-Type: text/html\r\n\r\n<p>html</p>\r\n--b\r\nContent-Type: text/plain\r\n\r\nplain text\r\n--b--\r\n";

fn mail_channel(extra: &[(&str, &str)]) -> Result<EmailChannel, String> {
    EmailChannel::from_extra(vec![], &settings(extra))
}

const MAIL_SETTINGS: &[(&str, &str)] = &[
    ("imap_host", "imap.x"),
    ("imap_username", "u"),
    ("imap_password", "p"),
    ("smtp_host", "smtp.x"),
    ("smtp_username", "u"),
    ("smtp_password", "p"),
    ("from_address", "bot@x"),
];

#[test]
fn mails_are_read() {
    let mail = parse_email_message(MAIL).unwrap();
    assert_eq!(mail.from_addr, "ann@example.com");
    assert_eq!(mail.from_name, "Ann Bee");
    assert_eq!(mail.subject, "Hello");
    assert_eq!(mail.body.trim(), "plain text");
    assert_eq!(mail.message_id, "<1@x>");
    let draft = draft_of_email(&mail);
    assert_eq!(draft.sender_id, "ann@example.com");
    assert!(draft.content.contains("plain text"));
}

#[test]
fn mails_in_base64_are_decoded() {
    let raw = b"From: a@b.c\r\nContent-Type: text/plain\r\nContent-Transfer-Encoding: base64\r\n\r\naGVsbG8=\r\n";
    assert_eq!(parse_email_message(raw).unwrap().body.trim(), "hello");
    assert_eq!(
        parse_email_message(b"From: >x< \r\n\r\nhi").unwrap_err(),
        EmailError::BadSender
    );
}

#[test]
fn html_is_reduced_to_text() {
    let part = MailPart {
        mimetype: "multipart/mixed".to_string(),
        body: None,
        subparts: vec![MailPart {
            mimetype: "text/html".to_string(),
            body: Some("<b>one</b><br>two".to_string()),
            subparts: vec![],
        }],
    };
    assert_eq!(extract_text_body(&part), Some("one\ntwo".to_string()));
}

#[test]
fn senders_have_names_and_addresses() {
    assert_eq!(
        parse_from_header("\"Ann\" <ann@x>"),
        ("Ann".to_string(), "ann@x".to_string())
    );
    assert_eq!(
        parse_from_header("ann@x"),
        ("".to_string(), "ann@x".to_string())
    );
}

#[test]
fn mail_needs_consent() {
    assert!(mail_channel(MAIL_SETTINGS).is_err());
    let mut all = MAIL_SETTINGS.to_vec();
    all.push(("consent", CONSENT_TEXT));
    all.push(("consent_granted", "true"));
    let channel = mail_channel(&all).unwrap();
    assert_eq!(channel.imap_port, 993);
    let mail = parse_email_message(MAIL).unwrap();
    let messages = channel.start(Some(vec![mail]));
    assert_eq!(messages.len(), 1);
    assert!(channel.start(None).is_empty());
}

#[test]
fn mail_ports_decide_the_encryption() {
    assert_eq!(smtp_mode(465), SmtpMode::Tls);
    assert_eq!(smtp_mode(587), SmtpMode::StartTls);
    assert_eq!(sequence_set(&vec![3, 5, 8]), "3,5,8");
    let mail = EmailMessage {
        from_addr: "a@x".to_string(),
        from_name: "A".to_string(),
        subject: "S".to_string(),
        body: "B".to_string(),
        message_id: "M".to_string(),
    };
    assert_eq!(draft_of_email(&mail).sender_name, "A <a@x>");
}

// ---- Telegram ----

fn telegram_text(chat_type: &str, text: &str) -> TgUpdate {
    TgUpdate {
        update_id: 7,
        message: Some(TgMessage {
            message_id: 1,
            from: Some(TgUser {
                id: 42,
                username: Some("ann".to_string()),
                first_name: "Ann".to_string(),
            }),
            chat: TgChat {
                id: 42,
                chat_type: chat_type.to_string(),
            },
            text: Some(text.to_string()),
            caption: None,
            photo: None,
            voice: None,
            audio: None,
            document: None,
        }),
        callback_query: None,
    }
}

#[test]
fn telegram_messages_are_handed_on() {
    let channel = TelegramChannel::new("123:abc".to_string());
    match channel.process_update(&telegram_text("private", "hello")) {
        TelegramAction::Deliver {
            chat_id,
            placeholder,
            inbound,
        } => {
            assert_eq!(chat_id, 42);
            assert_eq!(placeholder, THINKING_TEXT);
            assert_eq!(text_of(&inbound), "hello");
            assert_eq!(inbound.session_id, "42");
        }
        other => panic!("{:?}", other),
    }
    assert!(matches!(
        channel.process_update(&telegram_text("private", "/help")),
        TelegramAction::Command { html: true, .. }
    ));
    let strict = TelegramChannel::new("t".to_string()).with_allow_from(vec!["bob".to_string()]);
    assert!(matches!(
        strict.process_update(&telegram_text("private", "hello")),
        TelegramAction::Ignore
    ));
}

#[test]
fn telegram_buttons_decide_requests() {
    assert_eq!(parse_approval("acadapr:yes:apr-1"), Some((true, "apr-1".to_string())));
    assert_eq!(parse_approval("acadapr:no:apr-1"), Some((false, "apr-1".to_string())));
    assert_eq!(parse_approval("other"), None);
    let channel = TelegramChannel::new("t".to_string());
    let callback = TgCallbackQuery {
        id: "cb".to_string(),
        from: TgUser {
            id: 42,
            username: None,
            first_name: "Ann".to_string(),
        },
        message: Some(TgCallbackMessage {
            message_id: 5,
            chat: TgChat {
                id: 42,
                chat_type: "private".to_string(),
            },
        }),
        data: Some("acadapr:yes:apr-1".to_string()),
    };
    match channel.process_callback_query(&callback) {
        TelegramAction::Approval {
            callback_id,
            clear_keyboard,
            message,
            ..
        } => {
            assert_eq!(callback_id, "cb");
            assert_eq!(clear_keyboard, Some((42, 5)));
            assert!(message.is_some());
        }
        other => panic!("{:?}", other),
    }
}

#[test]
fn telegram_payloads_are_signed() {
    let channel = TelegramChannel::new("123:abc".to_string());
    assert!(channel.verify_webhook_signature(
        "payload",
        "e6d0329edab0763d1e0bea7c8a36ca0006713316de57f36aa41e5220662e79c4"
    ));
    assert!(!channel.verify_webhook_signature("payload!", "e6d0"));
}

#[test]
fn telegram_replies_take_the_place_of_the_placeholder() {
    let mut channel = TelegramChannel::new("t".to_string());
    channel.note_placeholder("42", 9);
    let steps = channel.send_reply("42", "**hi**");
    match &steps[0] {
        ReplyStep::Edit { message_id, html, plain } => {
            assert_eq!(*message_id, 9);
            assert_eq!(html, "<b>hi</b>");
            assert_eq!(plain, "**hi**");
        }
        other => panic!("{:?}", other),
    }
    let (method, body) = steps[0].request(42);
    assert_eq!(method, "editMessageText");
    assert_eq!(body.field("message_id").as_i64(), Some(9));
    assert_eq!(body.field("text").as_str(), Some("<b>hi</b>"));
    let plain = steps[0].fallback_body(42);
    assert_eq!(plain.field("chat_id").as_i64(), Some(42));
    assert_eq!(plain.field("text").as_str(), Some("**hi**"));
    assert!(plain.field("parse_mode").is_null());
    let next = channel.send_reply("42", "x");
    assert!(matches!(next[0], ReplyStep::Send { .. }));
    assert_eq!(next[0].request(42).0, "sendMessage");
    assert_eq!(next[0].request(42).1.field("parse_mode").as_str(), Some("HTML"));
    assert_eq!(channel.take_placeholder("42"), None);
    assert_eq!(channel.api_url("getMe"), "https://api.telegram.org/bott/getMe");
}

#[test]
fn telegram_polls_go_on_behind_the_last_update() {
    let mut state = PollState {
        offset: 0,
        consecutive_errors: 2,
    };
    state.received(&vec![telegram_text("private", "x")]);
    assert_eq!(state.offset, 8);
    assert_eq!(state.consecutive_errors, 0);
    let first = state.failed("timeout");
    assert_eq!(state.consecutive_errors, 1);
    assert!(first > 0);
    assert_eq!(poll_body(8).field("offset").as_i64(), Some(8));
    assert!(matches!(startup_probe(0, None), ProbeStep::RetryIn(_)));
    let empty = parse_json("{\"ok\":true,\"result\":[]}").unwrap();
    assert!(matches!(startup_probe(3, Some(&empty)), ProbeStep::Ready(3)));
}

#[test]
fn telegram_answers_are_results_or_errors() {
    assert_eq!(api_result("getMe", true, Some(1), None, None).unwrap(), 1);
    let failed: Result<i32, String> =
        api_result("getMe", false, None, Some("nope".to_string()), Some(401));
    assert!(failed.unwrap_err().contains("nope"));
    let body = send_message_body(-5, "hi", true);
    assert_eq!(body.field("chat_id").as_i64(), Some(-5));
    assert_eq!(body.field("parse_mode").as_str(), Some("HTML"));
}

#[test]
fn telegram_markup_is_rewritten() {
    assert_eq!(
        markdown_to_telegram_html("[a](https://x) and `c<d`"),
        "<a href=\"https://x\">a</a> and <code>c&lt;d</code>"
    );
}

#[test]
fn json_texts_are_read_back() {
    let value = Json::obj()
        .with("n", Json::Int(-3))
        .with("list", Json::arr(vec![Json::Bool(true), Json::Null, Json::text("\"q\"")]));
    let text = value.to_text();
    let back = parse_json(&text).unwrap();
    assert_eq!(back.field("n").as_i64(), Some(-3));
    assert_eq!(back.field("list").item(0).as_bool(), Some(true));
    assert!(back.field("list").item(1).is_null());
    assert!(back.field("list").item(2).is_str("\"q\""));
    assert_eq!(back.to_text(), text);
    assert!(parse_json("{").is_none());
    let half = parse_json("0.5").unwrap();
    assert!(matches!(half, Json::Float(_)));
    assert_eq!(half.to_text(), "0.5");
}
