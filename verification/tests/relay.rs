use chat_relay::{
    get_channel_mappings, get_streamer_for_channel, handle, settle, should_forward_channel,
    transform, Author, ChannelMention, Directory, ForwardError, HandleStep, InboundMessage,
    RoleEntry, Session, SubmitReceipt, TransformError, UserMention,
};

fn plain_message(channel_id: &str, author_name: &str, raw_text: &str) -> InboundMessage {
    InboundMessage {
        channel_id: channel_id.to_string(),
        author: Author {
            id: 1,
            display_name: author_name.to_string(),
            is_automated: false,
        },
        raw_text: raw_text.to_string(),
        user_mentions: Vec::new(),
        role_mentions: Vec::new(),
        channel_mentions: Vec::new(),
        guild_id: None,
        attachment_count: 0,
    }
}

fn session() -> Option<Session> {
    Some(Session {
        identity: "did:plc:bridge".to_string(),
    })
}

#[test]
fn automated_author_is_skipped_regardless_of_other_fields() {
    let dir = get_channel_mappings("42=did:plc:abc");
    let mut msg = plain_message("42", "Robo", "perfectly forwardable text");
    msg.author.is_automated = true;
    msg.attachment_count = 7;
    msg.guild_id = Some(9);
    let r = handle(&msg, &Vec::new(), &dir, &session(), "2024-01-01T00:00:00Z");
    assert!(matches!(r, HandleStep::Skip));
}

#[test]
fn command_prefix_is_skipped() {
    let dir = get_channel_mappings("42=did:plc:abc");
    let msg = plain_message("42", "Ana", "~roll 2d6");
    let r = handle(&msg, &Vec::new(), &dir, &session(), "2024-01-01T00:00:00Z");
    assert!(matches!(r, HandleStep::Skip));
}

#[test]
fn empty_text_fails_with_empty_content() {
    let msg = plain_message("42", "Ana", "");
    assert_eq!(
        transform(&msg, &Vec::new()),
        Err(TransformError::EmptyContent)
    );
}

#[test]
fn whitespace_only_text_fails_with_empty_content() {
    let msg = plain_message("42", "Ana", " \t\r\n \u{00A0}\u{3000} ");
    assert_eq!(
        transform(&msg, &Vec::new()),
        Err(TransformError::EmptyContent)
    );
}

#[test]
fn whitespace_only_text_with_mentions_still_fails() {
    let mut msg = plain_message("42", "Ana", "   ");
    msg.user_mentions.push(UserMention {
        id: 123,
        display_name: "Bob".to_string(),
    });
    assert_eq!(
        transform(&msg, &Vec::new()),
        Err(TransformError::EmptyContent)
    );
}

#[test]
fn round_trip_user_mention() {
    let mut msg = plain_message("42", "Ana", "<@123> hi");
    msg.user_mentions.push(UserMention {
        id: 123,
        display_name: "Bob".to_string(),
    });
    let out = transform(&msg, &Vec::new()).unwrap();
    assert_eq!(out, "Ana (Discord): @Bob hi");
}

#[test]
fn mention_substitution_is_global_and_leaves_no_tokens() {
    let mut msg = plain_message("42", "Ana", "<@7> and <@7> again, plus <#8>");
    msg.user_mentions.push(UserMention {
        id: 7,
        display_name: "Eve".to_string(),
    });
    msg.channel_mentions.push(ChannelMention {
        id: 8,
        display_name: "general".to_string(),
    });
    let out = transform(&msg, &Vec::new()).unwrap();
    assert_eq!(out, "Ana (Discord): @Eve and @Eve again, plus #general");
    assert!(!out.contains("<@7>"));
    assert!(!out.contains("<#8>"));
}

#[test]
fn resolved_role_is_substituted_and_unresolved_left_alone() {
    let mut msg = plain_message("42", "Ana", "ping <@&10> and <@&11>");
    msg.role_mentions.push(10);
    msg.role_mentions.push(11);
    let roles = vec![RoleEntry {
        id: 10,
        display_name: "mods".to_string(),
    }];
    let out = transform(&msg, &roles).unwrap();
    assert_eq!(out, "Ana (Discord): ping @mods and <@&11>");
}

#[test]
fn surrounding_whitespace_is_trimmed() {
    let msg = plain_message("42", "Ana", "  hello there \n");
    let out = transform(&msg, &Vec::new()).unwrap();
    assert_eq!(out, "Ana (Discord): hello there");
}

#[test]
fn directory_resolution_follows_configuration() {
    let dir = get_channel_mappings("a=x,b=y");
    assert_eq!(get_streamer_for_channel(&dir, "a"), Ok("x".to_string()));
    assert_eq!(get_streamer_for_channel(&dir, "b"), Ok("y".to_string()));
    assert_eq!(
        get_streamer_for_channel(&dir, "c"),
        Err(ForwardError::ChannelNotMapped)
    );
}

#[test]
fn malformed_pairs_are_dropped_and_fields_trimmed() {
    let dir = get_channel_mappings(" 111 = did:plc:abc ,broken,a=b=c,,222=did:web:ok");
    assert_eq!(
        get_streamer_for_channel(&dir, "111"),
        Ok("did:plc:abc".to_string())
    );
    assert_eq!(
        get_streamer_for_channel(&dir, "222"),
        Ok("did:web:ok".to_string())
    );
    assert!(!should_forward_channel(&dir, "broken"));
    assert!(!should_forward_channel(&dir, "a"));
    assert!(!should_forward_channel(&dir, ""));
}

#[test]
fn later_duplicate_mapping_wins() {
    let dir = get_channel_mappings("1=did:plc:first,1=did:plc:second");
    assert_eq!(
        get_streamer_for_channel(&dir, "1"),
        Ok("did:plc:second".to_string())
    );
}

#[test]
fn empty_directory_forwards_nothing() {
    let fresh = Directory::new();
    assert!(!should_forward_channel(&fresh, "1"));
    assert!(!should_forward_channel(&fresh, ""));
    assert!(!should_forward_channel(&fresh, "555"));
    let parsed = get_channel_mappings("");
    assert!(!should_forward_channel(&parsed, "1"));
    assert!(!should_forward_channel(&parsed, "anything"));
}

#[test]
fn unmapped_channel_fails_with_channel_not_mapped() {
    let dir = get_channel_mappings("111=did:plc:abc");
    let msg = plain_message("555", "Ana", "hello");
    let r = handle(&msg, &Vec::new(), &dir, &session(), "2024-01-01T00:00:00Z");
    assert!(matches!(
        r,
        HandleStep::Fail(ForwardError::ChannelNotMapped)
    ));
}

#[test]
fn missing_session_fails_with_no_active_session() {
    let dir = get_channel_mappings("111=did:plc:abc");
    let msg = plain_message("111", "Ana", "hello");
    let r = handle(&msg, &Vec::new(), &dir, &None, "2024-01-01T00:00:00Z");
    assert!(matches!(r, HandleStep::Fail(ForwardError::NoActiveSession)));
}

#[test]
fn mapped_channel_with_session_builds_the_record() {
    let dir = get_channel_mappings("111=did:plc:abc");
    let msg = plain_message("111", "Ana", "hello");
    let r = handle(&msg, &Vec::new(), &dir, &session(), "2024-06-01T12:00:00Z");
    match r {
        HandleStep::Submit(rec) => {
            assert_eq!(rec.text, "Ana (Discord): hello");
            assert_eq!(rec.created_at, "2024-06-01T12:00:00Z");
            assert_eq!(rec.destination_identity, "did:plc:abc");
            assert!(!rec.text.is_empty());
        }
        other => panic!("expected Submit, got {:?}", other),
    }
}

#[test]
fn submission_failure_is_isolated_from_the_next_message() {
    let dir = get_channel_mappings("111=did:plc:abc");

    let first = plain_message("111", "Ana", "first");
    let r1 = handle(&first, &Vec::new(), &dir, &session(), "t1");
    assert!(matches!(r1, HandleStep::Submit(_)));
    let settled1 = settle(Err("transport error".to_string()));
    assert_eq!(
        settled1.unwrap_err(),
        ForwardError::SubmissionFailed("transport error".to_string())
    );

    let second = plain_message("111", "Bea", "second");
    let r2 = handle(&second, &Vec::new(), &dir, &session(), "t2");
    match r2 {
        HandleStep::Submit(rec) => assert_eq!(rec.text, "Bea (Discord): second"),
        other => panic!("expected Submit, got {:?}", other),
    }
    let settled2 = settle(Ok(SubmitReceipt {
        location_uri: "at://did:plc:bridge/place.stream.chat.message/1".to_string(),
        content_id: "bafy".to_string(),
    }));
    assert!(settled2.is_ok());
    assert_eq!(
        settled2.unwrap().location_uri,
        "at://did:plc:bridge/place.stream.chat.message/1"
    );
}

#[test]
fn zero_and_large_ids_render_in_decimal() {
    let mut msg = plain_message("42", "Ana", "<@0> and <@18446744073709551615>");
    msg.user_mentions.push(UserMention {
        id: 0,
        display_name: "Zed".to_string(),
    });
    msg.user_mentions.push(UserMention {
        id: u64::MAX,
        display_name: "Max".to_string(),
    });
    let out = transform(&msg, &Vec::new()).unwrap();
    assert_eq!(out, "Ana (Discord): @Zed and @Max");
}

#[test]
fn mentions_are_replaced_in_listed_order() {
    // the first mention's replacement happens before the second's token scan
    let mut msg = plain_message("42", "Ana", "<@1><@2>");
    msg.user_mentions.push(UserMention {
        id: 1,
        display_name: "one".to_string(),
    });
    msg.user_mentions.push(UserMention {
        id: 2,
        display_name: "two".to_string(),
    });
    let out = transform(&msg, &Vec::new()).unwrap();
    assert_eq!(out, "Ana (Discord): @one@two");
}

#[test]
fn record_collection_is_the_chat_message_schema() {
    assert_eq!(
        chat_relay::record_collection(),
        "place.stream.chat.message"
    );
}
