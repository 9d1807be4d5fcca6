use adaclaw::channels::base::BaseChannel;
use adaclaw::channels::dingtalk::{
    handle_dingtalk_webhook, DingTalkChannel, DingTalkInbound, DingTalkText,
};
use adaclaw::channels::feishu::{
    handle_feishu_event, send_result, FeishuEvent, FeishuHeader, FeishuState, TokenResponse,
};
use adaclaw::channels::slack::{
    handle_slack_event, post_result, SlackChannel, SlackEvent, SlackPayload, SlackState,
};
use adaclaw::channels::webhook::{
    default_sender_id, default_session_id, handle_webhook, WebhookChannel, WebhookInbound,
    WebhookState,
};
use adaclaw::channels::wechat_work::{
    extract_xml_tag, handle_wecom_message, handle_wecom_verify, process_wecom_message,
    quick_xml_parse, unframe, DecryptError, WeComChannel, WeComFrom, WeComMessage, WeComMixed,
    WeComMixedItem, WeComState, WeComText, WeComWebhookQuery,
};
use adaclaw::channels::whatsapp::{
    drafts_of_payload, handle_whatsapp_message, handle_whatsapp_verify, VerifyParams,
    WhatsAppChange, WhatsAppChannel, WhatsAppContact, WhatsAppEntry, WhatsAppMedia,
    WhatsAppMessage, WhatsAppProfile, WhatsAppState, WhatsAppText, WhatsAppValue,
    WhatsAppWebhookPayload,
};
use adaclaw::json::parse_json;
use adaclaw::model::channel::{InboundMessage, MessageContent, OutboundMessage};

const SECRET: &str = "s3cret";

fn text_of(message: &InboundMessage) -> &str {
    match &message.content {
        MessageContent::Text(t) => t,
        other => panic!("{:?}", other),
    }
}

fn reply(session: &str, text: &str) -> OutboundMessage {
    OutboundMessage {
        id: "o1".to_string(),
        target_channel: "any".to_string(),
        target_session_id: session.to_string(),
        content: MessageContent::Text(text.to_string()),
        reply_to: None,
    }
}

fn some(text: &str) -> Option<String> {
    Some(text.to_string())
}

// ---- Slack ----

fn slack_state(secret: Option<&str>) -> SlackState {
    SlackState {
        base: BaseChannel::new("slack"),
        bot_token: "xoxb".to_string(),
        signing_secret: secret.map(|s| s.to_string()),
    }
}

fn slack_message(text: &str) -> SlackPayload {
    SlackPayload {
        event_type: some("event_callback"),
        challenge: None,
        event: Some(SlackEvent {
            event_type: some("message"),
            user: some("U1"),
            text: some(text),
            channel: some("C1"),
            ts: some("1.5"),
            thread_ts: None,
            bot_id: None,
            subtype: None,
        }),
        team_id: some("T1"),
    }
}

const SLACK_SIGNATURE: &str =
    "v0=bd185b05da99402f371e04f620aeca81515f08c0ef7fcf979fccaa4d2f87d47c";

#[test]
fn slack_signatures_are_checked() {
    let state = slack_state(Some(SECRET));
    let body = "{\"a\":1}";
    assert!(state.verify_signature("1700000000", SLACK_SIGNATURE, body, 1700000100));
    assert!(state.verify_signature("1700000000", SLACK_SIGNATURE, body, 1700000300));
    assert!(!state.verify_signature("1700000000", SLACK_SIGNATURE, body, 1700000301));
    assert!(!state.verify_signature("1700000000", SLACK_SIGNATURE, "{}", 1700000100));
    assert!(!state.verify_signature("", SLACK_SIGNATURE, body, 1700000100));
    assert!(slack_state(None).verify_signature("", "", body, 0));
}

#[test]
fn slack_events_lead_to_messages() {
    let state = slack_state(Some(SECRET));
    let body = "{\"a\":1}";
    let (status, _, message) = handle_slack_event(
        &state,
        "1700000000",
        SLACK_SIGNATURE,
        body,
        1700000100,
        Some(slack_message("hello")),
    );
    assert_eq!(status, 200);
    let message = message.unwrap();
    assert_eq!(message.channel, "slack");
    assert_eq!(message.sender_id, "U1");
    assert_eq!(message.id.len(), 36);
    assert_eq!(text_of(&message), "hello");

    let (status, _, message) =
        handle_slack_event(&state, "1", "v0=no", body, 1, Some(slack_message("hello")));
    assert_eq!(status, 403);
    assert!(message.is_none());
    let (status, _, _) = handle_slack_event(&slack_state(None), "", "", body, 1, None);
    assert_eq!(status, 400);
}

#[test]
fn slack_challenges_are_sent_back() {
    let payload = SlackPayload {
        event_type: some("url_verification"),
        challenge: some("abc"),
        event: None,
        team_id: None,
    };
    let (status, answer, _) =
        handle_slack_event(&slack_state(None), "", "", "", 0, Some(payload));
    assert_eq!(status, 200);
    assert_eq!(answer.field("challenge").as_str(), Some("abc"));
}

#[test]
fn slack_messages_of_bots_are_ignored() {
    let mut payload = slack_message("hello");
    payload.event.as_mut().unwrap().bot_id = some("B1");
    let (status, _, message) =
        handle_slack_event(&slack_state(None), "", "", "", 0, Some(payload));
    assert_eq!(status, 200);
    assert!(message.is_none());
}

#[test]
fn slack_posts_to_threads() {
    let state = slack_state(None);
    let (url, body) = state.post_message("C1", "hi", Some("1.5"));
    assert_eq!(url, "https://slack.com/api/chat.postMessage");
    assert_eq!(body.field("channel").as_str(), Some("C1"));
    assert_eq!(body.field("thread_ts").as_str(), Some("1.5"));
    assert!(post_result(&parse_json("{\"ok\":true}").unwrap()).is_ok());
    assert!(post_result(&parse_json("{\"ok\":false,\"error\":\"x\"}").unwrap()).is_err());
    let channel = SlackChannel::new("t".to_string(), None, vec![], 3000, "/slack".to_string());
    assert_eq!(channel.base.name, "slack");
}

// ---- DingTalk ----

fn ding(text: &str) -> DingTalkInbound {
    DingTalkInbound {
        msg_type: "text".to_string(),
        text: Some(DingTalkText {
            content: text.to_string(),
        }),
        sender_id: "u1".to_string(),
        sender_nick: "Ann".to_string(),
        session_webhook: "https://oapi.dingtalk.com/x".to_string(),
        conversation_type: "1".to_string(),
        conversation_id: "c1".to_string(),
        conversation_title: "".to_string(),
    }
}

const DING_SIGN: &str = "MT7bXSNfVTPzQMEuLWvmMNbmZSCUY1X6YKn9AxBnLsI=";

#[test]
fn dingtalk_pushes_are_signed() {
    let channel = DingTalkChannel::new(some(SECRET), vec![], 8080, "/d".to_string());
    assert!(channel.verify_signature("1700000000000", DING_SIGN));
    assert!(!channel.verify_signature("1700000000001", DING_SIGN));
    let (status, message) =
        handle_dingtalk_webhook(&channel, "1700000000000", DING_SIGN, &ding(" hi "));
    assert_eq!(status, 200);
    let message = message.unwrap();
    assert_eq!(text_of(&message), "hi");
    assert_eq!(message.session_id, "https://oapi.dingtalk.com/x");
    let (status, message) = handle_dingtalk_webhook(&channel, "1", "no", &ding("hi"));
    assert_eq!(status, 403);
    assert!(message.is_none());
}

#[test]
fn dingtalk_replies_go_to_the_session() {
    let channel = DingTalkChannel::new(None, vec![], 8080, "/d".to_string());
    let (url, body) = channel.send(&reply("https://a/b", "yes")).unwrap().unwrap();
    assert_eq!(url, "https://a/b");
    assert_eq!(body.field("text").field("content").as_str(), Some("yes"));
    assert!(channel.send(&reply("c1", "yes")).is_err());
}

// ---- Feishu ----

fn feishu_state() -> FeishuState {
    FeishuState {
        base: BaseChannel::new("feishu"),
        verification_token: some("vt"),
        app_id: "app".to_string(),
        app_secret: "sec".to_string(),
        token_cache: None,
    }
}

fn feishu_message(token: &str) -> FeishuEvent {
    let event = "{\"message\":{\"message_type\":\"text\",\"content\":\"{\\\"text\\\":\\\" hi \\\"}\",\"chat_id\":\"oc1\",\"message_id\":\"om1\"},\"sender\":{\"sender_id\":{\"open_id\":\"ou1\"}}}";
    FeishuEvent {
        schema: some("2.0"),
        header: Some(FeishuHeader {
            event_type: some("im.message.receive_v1"),
            token: some(token),
        }),
        event: parse_json(event),
        challenge: None,
        token: None,
        event_type_legacy: None,
    }
}

#[test]
fn feishu_events_need_the_token() {
    let state = feishu_state();
    let (status, _, message) = handle_feishu_event(&state, &feishu_message("vt"));
    assert_eq!(status, 200);
    let message = message.unwrap();
    assert_eq!(text_of(&message), "hi");
    assert_eq!(message.session_id, "oc1");
    assert_eq!(message.sender_id, "ou1");
    let (status, _, message) = handle_feishu_event(&state, &feishu_message("other"));
    assert_eq!(status, 403);
    assert!(message.is_none());
}

#[test]
fn feishu_challenges_are_sent_back() {
    let event = FeishuEvent {
        schema: None,
        header: None,
        event: None,
        challenge: some("abc"),
        token: None,
        event_type_legacy: some("url_verification"),
    };
    let (status, answer, _) = handle_feishu_event(&feishu_state(), &event);
    assert_eq!(status, 200);
    assert_eq!(answer.field("challenge").as_str(), Some("abc"));
}

#[test]
fn feishu_tokens_are_reused_until_they_expire() {
    let mut state = feishu_state();
    assert!(state.get_access_token(1000).unwrap().is_none());
    assert_eq!(state.token_request().field("app_id").as_str(), Some("app"));
    let answer = TokenResponse {
        code: 0,
        msg: "ok".to_string(),
        tenant_access_token: some("tok"),
        expire: Some(7200),
    };
    assert_eq!(state.store_token(1000, answer).unwrap(), "tok");
    assert_eq!(state.get_access_token(1001).unwrap(), some("tok"));
    assert!(state.get_access_token(20000).unwrap().is_none());
    let refused = TokenResponse {
        code: 99,
        msg: "bad".to_string(),
        tenant_access_token: None,
        expire: None,
    };
    assert!(state.store_token(1000, refused).is_err());
    assert!(send_result(0, "").is_ok());
    assert!(send_result(1, "bad").is_err());
}

// ---- WeCom ----

const KEY: &str = "AAECAwQFBgcICQoLDA0ODxAREhMUFRYXGBkaGxwdHh8";
const ENCRYPTED: &str = "4j/AuRx71kQlxVlzbpsMWGf0Rz0w3EB5yzhlp6jNjzu9ah9+tHnr0TDKuBU3me+AbqG0eBkSB3de0d95eBuhOv+Sy56b1ehf7+rLh0iYcqZX9XxqMWF3BpLG1AznMcTNDq1wbwPQLrHiHtNDxfWSl+s5l972PYPSNEhHVKVh+Cc=";
const SIGNATURE: &str = "2639b2e149bc8fa5ee0925d6fe46b1e9066e2c00";
const PLAIN: &str = "{\"msgid\":\"m1\",\"msgtype\":\"text\",\"from\":{\"userid\":\"u1\"},\"text\":{\"content\":\"hi\"}}";
const ECHO: &str = "4j/AuRx71kQlxVlzbpsMWO4cVLSlxYthp/WDlb0dtww=";
const ECHO_SIGNATURE: &str = "d74e5750912d65745748189fcccda2530655067e";

fn wecom_state(token: &str, key: Option<&str>) -> WeComState {
    WeComState {
        base: BaseChannel::new("wechat_work"),
        token: token.to_string(),
        encoding_aes_key: key.map(|k| k.to_string()),
        processed_msgs: vec![],
    }
}

fn wecom_query(signature: &str, echo: &str) -> WeComWebhookQuery {
    WeComWebhookQuery {
        msg_signature: signature.to_string(),
        timestamp: "1700".to_string(),
        nonce: "nonce".to_string(),
        echostr: echo.to_string(),
    }
}

fn wecom_message(id: &str, text: &str) -> WeComMessage {
    WeComMessage {
        msgid: id.to_string(),
        msgtype: "text".to_string(),
        from: WeComFrom {
            userid: "u1".to_string(),
        },
        chatid: "".to_string(),
        chattype: "single".to_string(),
        response_url: "https://qyapi/x".to_string(),
        text: Some(WeComText {
            content: text.to_string(),
        }),
        voice: None,
        mixed: None,
    }
}

#[test]
fn wecom_messages_are_signed_and_encrypted() {
    let state = wecom_state("tok", Some(KEY));
    assert!(state.verify_signature(SIGNATURE, "1700", "nonce", ENCRYPTED));
    assert!(!state.verify_signature(SIGNATURE, "1701", "nonce", ENCRYPTED));
    assert!(wecom_state("", None).verify_signature("", "", "", ""));
    assert_eq!(state.decrypt_message(ENCRYPTED).unwrap(), PLAIN);
}

#[test]
fn wecom_addresses_are_verified_by_an_echo() {
    let state = wecom_state("tok", Some(KEY));
    let (status, text) = handle_wecom_verify(&state, &wecom_query(ECHO_SIGNATURE, ECHO));
    assert_eq!(status, 200);
    assert_eq!(text, "echo!");
    let (status, _) = handle_wecom_verify(&state, &wecom_query("no", ECHO));
    assert_eq!(status, 403);
}

#[test]
fn wecom_bodies_hold_the_encrypted_message() {
    let state = wecom_state("tok", Some(KEY));
    let body = format!("<xml><Encrypt>{}</Encrypt></xml>", ENCRYPTED);
    assert_eq!(quick_xml_parse(&body).unwrap(), ENCRYPTED);
    assert_eq!(
        handle_wecom_message(&state, &wecom_query(SIGNATURE, ""), &body).unwrap(),
        PLAIN
    );
    assert_eq!(
        handle_wecom_message(&state, &wecom_query("no", ""), &body).unwrap_err(),
        403
    );
    assert_eq!(
        handle_wecom_message(&state, &wecom_query(SIGNATURE, ""), "<xml></xml>").unwrap_err(),
        400
    );
    assert_eq!(extract_xml_tag("<a> b </a>", "a").unwrap(), "b");
    assert!(extract_xml_tag("<a>b", "a").is_none());
}

#[test]
fn wecom_messages_that_cannot_be_decrypted_say_why() {
    assert_eq!(
        wecom_state("tok", None).decrypt_message(ECHO).unwrap_err(),
        DecryptError::NoKey
    );
    assert_eq!(
        wecom_state("tok", Some("?")).decrypt_message(ECHO).unwrap_err(),
        DecryptError::BadKey
    );
    assert_eq!(
        wecom_state("tok", Some("QUI")).decrypt_message(ECHO).unwrap_err(),
        DecryptError::KeyLength(2)
    );
    let state = wecom_state("tok", Some(KEY));
    assert_eq!(state.decrypt_message("?").unwrap_err(), DecryptError::BadMessage);
    assert_eq!(state.decrypt_message("QUI=").unwrap_err(), DecryptError::BadBlocks);
    assert_eq!(state.decrypt_message("").unwrap_err(), DecryptError::Empty);
}

fn framed(n: u32, text: &[u8], pad: u8) -> Vec<u8> {
    let mut v = vec![0u8; 16];
    v.extend_from_slice(&n.to_be_bytes());
    v.extend_from_slice(text);
    v.extend_from_slice(&vec![pad; pad as usize]);
    v
}

#[test]
fn wecom_frames_are_checked() {
    assert_eq!(unframe(&framed(2, b"hicorp", 3)).unwrap(), "hi");
    assert_eq!(unframe(&vec![1, 0]).unwrap_err(), DecryptError::BadPadding(0));
    assert_eq!(unframe(&vec![1, 33]).unwrap_err(), DecryptError::BadPadding(33));
    assert_eq!(unframe(&vec![7, 1]).unwrap_err(), DecryptError::TooShort(1));
    assert_eq!(
        unframe(&framed(9, b"hi", 1)).unwrap_err(),
        DecryptError::BadLength(9)
    );
    assert_eq!(unframe(&framed(1, &[255], 1)).unwrap_err(), DecryptError::NotText);
}

#[test]
fn wecom_messages_are_processed_once() {
    let mut state = wecom_state("tok", None);
    let message = process_wecom_message(&mut state, &wecom_message("m1", "hi")).unwrap();
    assert_eq!(text_of(&message), "hi");
    assert_eq!(message.sender_id, "u1");
    assert!(process_wecom_message(&mut state, &wecom_message("m1", "hi")).is_none());
    assert!(process_wecom_message(&mut state, &wecom_message("m2", "hi")).is_some());
    assert!(process_wecom_message(&mut state, &wecom_message("m3", "")).is_none());
}

#[test]
fn wecom_mixed_messages_hold_several_texts() {
    let mut state = wecom_state("tok", None);
    let mut message = wecom_message("m1", "");
    message.msgtype = "mixed".to_string();
    message.text = None;
    message.mixed = Some(WeComMixed {
        msg_item: vec![
            WeComMixedItem {
                msgtype: "text".to_string(),
                text: Some(WeComText {
                    content: "one".to_string(),
                }),
            },
            WeComMixedItem {
                msgtype: "image".to_string(),
                text: None,
            },
            WeComMixedItem {
                msgtype: "text".to_string(),
                text: Some(WeComText {
                    content: "two".to_string(),
                }),
            },
        ],
    });
    let inbound = process_wecom_message(&mut state, &message).unwrap();
    assert_eq!(text_of(&inbound), "one two");
    let channel = WeComChannel::new("tok".to_string(), None, vec![], 80, "/w".to_string());
    let (url, body) = channel.send(&reply("https://qyapi/x", "ok")).unwrap().unwrap();
    assert_eq!(url, "https://qyapi/x");
    assert_eq!(body.field("text").field("content").as_str(), Some("ok"));
}

// ---- WhatsApp ----

const BODY: &str = "{\"content\":\"hi\"}";
const BODY_SIGNATURE: &str =
    "sha256=2287e2ceadd6af6f21be2e35d89182b555a7dc0340a442880a4717a48111c893";

fn whatsapp_state(secret: Option<&str>) -> WhatsAppState {
    WhatsAppState {
        base: BaseChannel::new("whatsapp"),
        access_token: "at".to_string(),
        phone_number_id: "123".to_string(),
        verify_token: "vt".to_string(),
        app_secret: secret.map(|s| s.to_string()),
    }
}

fn whatsapp_payload() -> WhatsAppWebhookPayload {
    WhatsAppWebhookPayload {
        object: some("whatsapp_business_account"),
        entry: Some(vec![WhatsAppEntry {
            changes: Some(vec![WhatsAppChange {
                value: Some(WhatsAppValue {
                    messaging_product: some("whatsapp"),
                    contacts: Some(vec![WhatsAppContact {
                        profile: Some(WhatsAppProfile { name: some("Ann") }),
                        wa_id: some("49123"),
                    }]),
                    messages: Some(vec![
                        WhatsAppMessage {
                            from: some("49123"),
                            id: some("w1"),
                            text: Some(WhatsAppText { body: some("hi") }),
                            msg_type: some("text"),
                            image: None,
                            audio: None,
                            document: None,
                        },
                        WhatsAppMessage {
                            from: some("49123"),
                            id: some("w2"),
                            text: None,
                            msg_type: some("image"),
                            image: Some(WhatsAppMedia {
                                id: some("i1"),
                                mime_type: some("image/png"),
                                caption: some("look"),
                            }),
                            audio: None,
                            document: None,
                        },
                    ]),
                }),
                field: some("messages"),
            }]),
        }]),
    }
}

#[test]
fn whatsapp_payloads_are_signed() {
    let state = whatsapp_state(Some(SECRET));
    assert!(state.verify_signature(Some(BODY_SIGNATURE), BODY));
    assert!(!state.verify_signature(Some(BODY_SIGNATURE), "{}"));
    assert!(!state.verify_signature(None, BODY));
    assert!(whatsapp_state(None).verify_signature(None, BODY));
    let (status, messages) =
        handle_whatsapp_message(&state, Some(BODY_SIGNATURE), BODY, Some(whatsapp_payload()));
    assert_eq!(status, 200);
    assert_eq!(text_of(&messages[0]), "hi");
    assert_eq!(messages[0].sender_name, "Ann");
    for signature in [None, Some("sha256=00"), Some("")] {
        let (status, messages) =
            handle_whatsapp_message(&state, signature, BODY, Some(whatsapp_payload()));
        assert_eq!(status, 403);
        assert!(messages.is_empty());
    }
}

#[test]
fn whatsapp_media_are_described() {
    let drafts = drafts_of_payload(&whatsapp_payload());
    assert_eq!(drafts.len(), 2);
    assert_eq!(drafts[0].content, "hi");
    assert!(drafts[1].content.contains("look"));
}

#[test]
fn whatsapp_addresses_are_verified_by_a_challenge() {
    let state = whatsapp_state(None);
    let right = VerifyParams {
        hub_mode: some("subscribe"),
        hub_verify_token: some("vt"),
        hub_challenge: some("c42"),
    };
    assert_eq!(handle_whatsapp_verify(&state, &right), (200, "c42".to_string()));
    let wrong = VerifyParams {
        hub_mode: some("subscribe"),
        hub_verify_token: some("other"),
        hub_challenge: some("c42"),
    };
    assert_eq!(handle_whatsapp_verify(&state, &wrong).0, 403);
}

#[test]
fn whatsapp_settings_are_read() {
    let extra = vec![("phone_number_id".to_string(), "123".to_string())];
    let channel = WhatsAppChannel::from_extra(some("at"), None, vec![], &extra).unwrap();
    assert_eq!(channel.phone_number_id, "123");
    assert!(!channel.verify_token.is_empty());
    assert!(WhatsAppChannel::from_extra(None, None, vec![], &extra).is_err());
    assert!(WhatsAppChannel::from_extra(some("at"), None, vec![], &vec![]).is_err());
    let (url, body) = whatsapp_state(None).send_text("49123", "hi");
    assert_eq!(url, "https://graph.facebook.com/v18.0/123/messages");
    assert_eq!(body.field("text").field("body").as_str(), Some("hi"));
}

// ---- webhooks of any service ----

fn webhook_state(secret: Option<&str>) -> WebhookState {
    WebhookState {
        base: BaseChannel::new("webhook"),
        hmac_secret: secret.map(|s| s.to_string()),
    }
}

fn webhook_body(content: &str) -> Result<WebhookInbound, String> {
    Ok(WebhookInbound {
        sender_id: default_sender_id(),
        sender_name: "n".to_string(),
        content: content.to_string(),
        session_id: default_session_id(),
        metadata: vec![],
    })
}

#[test]
fn webhook_bodies_are_signed() {
    let state = webhook_state(Some(SECRET));
    assert!(state.verify_signature(BODY_SIGNATURE, BODY));
    assert!(state.verify_signature(&BODY_SIGNATURE[7..], BODY));
    assert!(!state.verify_signature("", BODY));
    let (status, answer, message) =
        handle_webhook(&state, BODY_SIGNATURE, BODY, webhook_body("hi"));
    assert_eq!(status, 200);
    assert_eq!(answer.field("status").as_str(), Some("accepted"));
    assert_eq!(text_of(&message.unwrap()), "hi");
    let (status, answer, message) = handle_webhook(&state, "no", BODY, webhook_body("hi"));
    assert_eq!(status, 403);
    assert_eq!(answer.field("error").as_str(), Some("Invalid signature"));
    assert!(message.is_none());
}

#[test]
fn webhook_bodies_without_content_are_refused() {
    let state = webhook_state(None);
    let (status, answer, _) = handle_webhook(&state, "", BODY, webhook_body("  "));
    assert_eq!(status, 400);
    assert_eq!(answer.field("error").as_str(), Some("content is required"));
    let (status, answer, _) = handle_webhook(&state, "", "{", Err("eof".to_string()));
    assert_eq!(status, 400);
    assert_eq!(answer.field("error").as_str(), Some("Invalid JSON: eof"));
    let channel = WebhookChannel::new(None, vec![], 80, "/h".to_string(), some("https://out"));
    let (url, _) = channel.send(&reply("s", "ok")).unwrap();
    assert_eq!(url, "https://out");
}
