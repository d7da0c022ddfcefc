//! Reading of event documents.

use hikvision_unifi_fire_bridge::event::{
    local_name, parse_event, sanitize_channel, EventFields, EventState,
};
use hikvision_unifi_fire_bridge::xml::XmlToken;

#[test]
fn parses_plain_fire_event() {
    let event = parse_event(
        br#"<EventNotificationAlert>
                <eventType>fireDetection</eventType>
                <eventState>active</eventState>
                <channelID>1</channelID>
            </EventNotificationAlert>"#,
    )
    .unwrap()
    .unwrap();
    assert_eq!(event.event_type, "fireDetection");
    assert_eq!(event.state, EventState::Active);
    assert_eq!(event.channel.as_deref(), Some("1"));
}

#[test]
fn parses_namespaced_document_with_attributes() {
    let event = parse_event(
        br#"<EventNotificationAlert version="2.0" xmlns="http://www.hikvision.com/ver20/XMLSchema">
                <eventType>fireDetection</eventType>
                <eventState>active</eventState>
                <channelID>1</channelID>
            </EventNotificationAlert>"#,
    )
    .unwrap()
    .unwrap();
    assert_eq!(event.event_type, "fireDetection");
    assert_eq!(event.state, EventState::Active);
}

#[test]
fn parses_prefixed_element_names() {
    let event = parse_event(
        br#"<hik:EventNotificationAlert xmlns:hik="http://example">
                <hik:eventType>fireDetection</hik:eventType>
                <hik:eventState>inactive</hik:eventState>
            </hik:EventNotificationAlert>"#,
    )
    .unwrap()
    .unwrap();
    assert_eq!(event.event_type, "fireDetection");
    assert_eq!(event.state, EventState::Inactive);
}

#[test]
fn heartbeat_videoloss_parses_as_non_fire_event() {
    let event = parse_event(
        br#"<EventNotificationAlert>
                <eventType>videoloss</eventType>
                <eventState>inactive</eventState>
                <channelID>1</channelID>
            </EventNotificationAlert>"#,
    )
    .unwrap()
    .unwrap();
    assert_eq!(event.event_type, "videoloss");
    assert_eq!(event.state, EventState::Inactive);
}

#[test]
fn state_normalisation_accepts_firmware_variants() {
    for raw in ["active", " Active ", "TRUE", "1"] {
        assert_eq!(EventState::parse(raw), EventState::Active, "raw={raw:?}");
    }
    for raw in ["inactive", "False", "0"] {
        assert_eq!(EventState::parse(raw), EventState::Inactive, "raw={raw:?}");
    }
    assert_eq!(
        EventState::parse("notSupport"),
        EventState::Unknown("notsupport".into())
    );
}

#[test]
fn document_without_event_fields_is_not_an_event() {
    let parsed =
        parse_event(b"<EventNotificationAlert><foo>1</foo></EventNotificationAlert>").unwrap();
    assert!(parsed.is_none());
}

#[test]
fn event_type_without_state_yields_missing_state_not_a_drop() {
    // Presence-based events must not vanish: the processor fails toward
    // alert for fire-matching types.
    let event = parse_event(
        br#"<EventNotificationAlert>
                <eventType>fireDetection</eventType>
                <channelID>2</channelID>
            </EventNotificationAlert>"#,
    )
    .unwrap()
    .unwrap();
    assert_eq!(event.event_type, "fireDetection");
    assert_eq!(event.state, EventState::Missing);
    assert_eq!(event.channel.as_deref(), Some("2"));
}

#[test]
fn malformed_xml_is_an_error_not_a_panic() {
    assert!(parse_event(b"<EventNotificationAlert><event").is_err());
}

#[test]
fn channel_is_sanitised_against_log_forging() {
    let event = parse_event(
        b"<EventNotificationAlert>\
                <eventType>fireDetection</eventType>\
                <eventState>active</eventState>\
                <channelID>1\x1b[31m\nFAKE LOG LINE</channelID>\
            </EventNotificationAlert>",
    )
    .unwrap()
    .unwrap();
    let channel = event.channel.unwrap();
    assert!(!channel.contains('\n'), "channel={channel:?}");
    assert!(!channel.contains('\x1b'), "channel={channel:?}");
    assert!(channel.starts_with('1'));
    assert!(channel.len() <= 64);
}

#[test]
fn nested_repeated_elements_do_not_override_first_values() {
    let event = parse_event(
        br#"<EventNotificationAlert>
                <eventType>fireDetection</eventType>
                <eventState>active</eventState>
                <DetectionRegionList>
                    <eventType>ignored</eventType>
                </DetectionRegionList>
            </EventNotificationAlert>"#,
    )
    .unwrap()
    .unwrap();
    assert_eq!(event.event_type, "fireDetection");
}

#[test]
fn cdata_is_read_like_text() {
    let event = parse_event(
        b"<A><eventType><![CDATA[fireAlarm]]></eventType><dynChannelID><![CDATA[ a\xffb ]]></dynChannelID></A>",
    )
    .unwrap()
    .unwrap();
    assert_eq!(event.event_type, "fireAlarm");
    assert_eq!(event.channel.as_deref(), Some("a\u{fffd}b"));
}

#[test]
fn text_that_is_not_utf8_is_an_error() {
    assert!(parse_event(b"<A><eventType>\xff</eventType></A>").is_err());
}

#[test]
fn mismatched_tags_are_an_error() {
    assert!(parse_event(b"<A><eventType>x</A>").is_err());
}

#[test]
fn text_after_a_closing_tag_belongs_to_no_element() {
    let event = parse_event(b"<A><eventType>fire</eventType>x<eventState>1</eventState>y</A>")
        .unwrap()
        .unwrap();
    assert_eq!(event.event_type, "fire");
    assert_eq!(event.state, EventState::Active);
    assert_eq!(event.channel, None);
}

#[test]
fn fields_follow_the_steps_of_a_document() {
    let mut fields = EventFields::new();
    let steps = vec![
        XmlToken::Start(b"h:eventType".to_vec()),
        XmlToken::Text("fire".into()),
        XmlToken::Text("again".into()),
        XmlToken::End,
        XmlToken::Text("stray".into()),
        XmlToken::Other,
        XmlToken::Start(b"eventState".to_vec()),
        XmlToken::CData(b" Weird ".to_vec()),
        XmlToken::End,
        XmlToken::Start(b"dynChannelID".to_vec()),
        XmlToken::Text(" 1\u{1b}2 ".into()),
        XmlToken::Eof,
    ];
    for step in steps {
        assert!(fields.apply(step).is_ok());
    }
    let event = fields.finish().unwrap();
    assert_eq!(event.event_type, "fire");
    assert_eq!(event.state, EventState::Unknown("weird".into()));
    assert_eq!(event.channel.as_deref(), Some("12"));
}

#[test]
fn a_failed_step_ends_the_reading() {
    let mut fields = EventFields::new();
    assert_eq!(fields.apply(XmlToken::Failed("bad".into())), Err("bad".into()));
    assert_eq!(fields.apply(XmlToken::Undecodable("worse".into())), Err("worse".into()));
    assert!(fields.finish().is_none());
}

#[test]
fn channels_are_trimmed_stripped_and_clipped() {
    assert_eq!(sanitize_channel("  1  "), "1");
    assert_eq!(sanitize_channel("a\u{85}b\u{7f}c\td"), "abcd");
    assert_eq!(sanitize_channel(&"x".repeat(100)), "x".repeat(64));
    assert_eq!(sanitize_channel(&"\u{e4}".repeat(65)), "\u{e4}".repeat(64));
    assert_eq!(sanitize_channel(" \n "), "");
}

#[test]
fn local_names_follow_the_last_colon() {
    assert_eq!(local_name(b"eventType"), b"eventType");
    assert_eq!(local_name(b"a:b:eventType"), b"eventType");
    assert_eq!(local_name(b"a:"), b"");
    assert_eq!(local_name(b""), b"");
}
