//! The companion protocol: messages, bounds, sessions and the link.
use tiny_dfr::helper_link::{peer_allowed, Client, HelperLink, Offer, Violation};
use tiny_dfr::helper_proto::{
    clean_media_art_path, clean_media_text, encode_intent, sanitize_state, ClaudePresence,
    ClaudeSession, ErrorBudget, HelperMessage, Intent, LineBuffer, LineOverflow, NowPlaying,
    OutputGroup, StateMsg, Vol, WsEntry, MAX_CLAUDE_SESSIONS, MAX_GROUPS, MAX_LINE_BYTES,
    MAX_MEDIA_ARTIST_CHARS, MAX_MEDIA_TITLE_CHARS, MAX_SESSION_ID_LEN, MAX_WS_PER_GROUP,
};
use tiny_dfr::moment::Moment;
use tiny_dfr::scalar::Scalar;

fn scalar(x: f64) -> Scalar {
    Scalar::from_bits(x.to_bits())
}

fn float(s: Scalar) -> f64 {
    f64::from_bits(s.bits)
}

fn at(millis: u64) -> Moment {
    Moment { nanos: 1_000_000_000 + millis * 1_000_000 }
}

fn state(outs: Vec<OutputGroup>) -> StateMsg {
    StateMsg { outs, vol: None, claude: None, media: None }
}

fn playing(title: &str, artist: &str, art_path: Option<&str>) -> StateMsg {
    StateMsg {
        outs: vec![],
        vol: None,
        claude: None,
        media: Some(NowPlaying {
            title: title.to_string(),
            artist: artist.to_string(),
            art_path: art_path.map(|p| p.to_string()),
        }),
    }
}

fn entry(id: u64, idx: u8, occ: bool, foc: bool) -> WsEntry {
    WsEntry { id, idx, occ, foc }
}

fn entry_of(value: &serde_json::Value) -> Option<WsEntry> {
    Some(WsEntry {
        id: value.get("id")?.as_u64()?,
        idx: u8::try_from(value.get("idx")?.as_u64()?).ok()?,
        occ: value.get("occ").map_or(Some(false), |v| v.as_bool())?,
        foc: value.get("foc").map_or(Some(false), |v| v.as_bool())?,
    })
}

fn group_of(value: &serde_json::Value) -> Option<OutputGroup> {
    let name = value.get("name").map_or(Some(""), |v| v.as_str())?.to_string();
    let mut ws = Vec::new();
    if let Some(list) = value.get("ws") {
        for item in list.as_array()? {
            ws.push(entry_of(item)?);
        }
    }
    Some(OutputGroup { name, ws })
}

fn parse_line(line: &str) -> Option<HelperMessage> {
    let value: serde_json::Value = serde_json::from_str(line).ok()?;
    match value.get("t")?.as_str()? {
        "hello" => Some(HelperMessage::Hello { v: value.get("v")?.as_u64()? }),
        "state" => {
            let mut outs = Vec::new();
            for item in value.get("outs")?.as_array()? {
                outs.push(group_of(item)?);
            }
            let vol = match value.get("vol") {
                Some(v) => Some(Vol {
                    level: scalar(v.get("level")?.as_f64()?),
                    muted: v.get("muted").map_or(Some(false), |m| m.as_bool())?,
                }),
                None => None,
            };
            let media = match value.get("media") {
                Some(m) => Some(NowPlaying {
                    title: m.get("title").and_then(|t| t.as_str()).unwrap_or("").to_string(),
                    artist: m.get("artist").and_then(|t| t.as_str()).unwrap_or("").to_string(),
                    art_path: m.get("art_path").and_then(|t| t.as_str()).map(|t| t.to_string()),
                }),
                None => None,
            };
            Some(HelperMessage::State(StateMsg { outs, vol, claude: None, media }))
        }
        _ => None,
    }
}

/// One read's worth of bytes through a session; whether it ended, and the
/// states it brought.
fn ingest(client: &mut Client, data: &[u8], now: Moment) -> (bool, Vec<StateMsg>) {
    match client.receive(data) {
        Ok(lines) => {
            let messages = lines.iter().map(|l| parse_line(l)).collect();
            let out = client.ingest(messages, now);
            (out.disconnect.is_some(), out.states)
        }
        Err(_) => (true, Vec::new()),
    }
}

fn feed(link: &mut HelperLink, data: &[u8], now: Moment) -> bool {
    match link.receive(data) {
        Ok(lines) => {
            let messages = lines.iter().map(|l| parse_line(l)).collect();
            link.apply(messages, now).applied
        }
        Err(_) => false,
    }
}

#[test]
fn media_state_parses_and_sanitizes() {
    let state = parse_line(
        r#"{"t":"state","outs":[],"media":{"title":"  Song\u0007 Name  ","artist":"Artist","art_path":"/run/tiny-dfr-ben/media/current.png","future":true}}"#,
    )
    .unwrap();
    let HelperMessage::State(state) = state else {
        panic!("expected state");
    };

    let state = sanitize_state(state);
    let media = state.media.unwrap();
    assert_eq!(media.title, "Song Name");
    assert_eq!(media.artist, "Artist");
    assert_eq!(media.art_path.as_deref(), Some("/run/tiny-dfr-ben/media/current.png"));
}

#[test]
fn media_sanitizer_drops_empty_titles_and_unsafe_art_paths() {
    let state = sanitize_state(playing(
        "   ",
        "Artist",
        Some("/run/tiny-dfr-ben/media/current.png"),
    ));
    assert!(state.media.is_none());

    let state = sanitize_state(playing("Track", "Artist", Some("/home/ben/.cache/private.png")));
    assert_eq!(state.media.unwrap().art_path, None);

    let state = sanitize_state(playing("Track", "Artist", Some("/tmp/tiny-dfr-ben/current.png")));
    assert_eq!(state.media.unwrap().art_path, None);
}

#[test]
fn media_sanitizer_truncates_text_fields() {
    let title = "t".repeat(MAX_MEDIA_TITLE_CHARS + 20);
    let artist = "a".repeat(MAX_MEDIA_ARTIST_CHARS + 20);
    let state = sanitize_state(playing(
        &title,
        &artist,
        Some("/run/tiny-dfr-ben/media/current.jpg"),
    ));

    let media = state.media.unwrap();
    assert_eq!(media.title.len(), MAX_MEDIA_TITLE_CHARS);
    assert_eq!(media.artist.len(), MAX_MEDIA_ARTIST_CHARS);
    assert_eq!(media.art_path, None);
}

#[test]
fn sanitize_enforces_group_and_entry_bounds() {
    let groups = (0..6)
        .map(|g| OutputGroup {
            name: format!("out{g}"),
            ws: (0..20)
                .map(|i| entry((g * 100 + i) as u64, (i + 1) as u8, true, false))
                .collect(),
        })
        .collect();
    let state = sanitize_state(state(groups));

    assert_eq!(state.outs.len(), MAX_GROUPS);
    assert!(state.outs.iter().all(|g| g.ws.len() <= MAX_WS_PER_GROUP));
}

#[test]
fn sanitize_filters_bad_idx_and_extra_focus_and_clamps_volume() {
    let state = sanitize_state(StateMsg {
        outs: vec![OutputGroup {
            name: "eDP-1".into(),
            ws: vec![
                entry(1, 0, true, false),
                entry(2, 1, true, true),
                entry(3, 33, true, false),
                entry(4, 2, true, true),
            ],
        }],
        vol: Some(Vol { level: scalar(1.35), muted: false }),
        claude: None,
        media: None,
    });

    let ws = &state.outs[0].ws;
    assert_eq!(ws.iter().map(|w| w.id).collect::<Vec<_>>(), vec![2, 4]);
    assert_eq!(ws.iter().filter(|w| w.foc).count(), 1);
    assert!(ws[0].foc);
    assert_eq!(float(state.vol.unwrap().level), 1.0);
}

#[test]
fn sanitize_bounds_claude_sessions() {
    let state = sanitize_state(StateMsg {
        outs: vec![],
        vol: None,
        claude: Some(ClaudePresence {
            sessions: (0..10)
                .map(|i| ClaudeSession { id: format!("{}{}", "x".repeat(100), i) })
                .collect(),
        }),
        media: None,
    });

    let sessions = &state.claude.unwrap().sessions;
    assert_eq!(sessions.len(), MAX_CLAUDE_SESSIONS);
    assert!(sessions.iter().all(|s| s.id.len() <= MAX_SESSION_ID_LEN));
}

#[test]
fn sanitize_drops_empty_groups() {
    let state = sanitize_state(state(vec![
        OutputGroup { name: "empty".into(), ws: vec![] },
        OutputGroup { name: "bad-idx-only".into(), ws: vec![entry(1, 0, true, false)] },
        OutputGroup { name: "eDP-1".into(), ws: vec![entry(2, 1, true, false)] },
    ]));

    assert_eq!(state.outs.len(), 1);
    assert_eq!(state.outs[0].name, "eDP-1");
}

#[test]
fn intents_encode_exactly() {
    assert_eq!(
        encode_intent(&Intent::SetVolume(scalar(0.42))),
        "{\"t\":\"set-volume\",\"level\":0.4200}\n"
    );
    assert_eq!(
        encode_intent(&Intent::SetVolume(scalar(f64::NAN))),
        "{\"t\":\"set-volume\",\"level\":0.0000}\n"
    );
    assert_eq!(
        encode_intent(&Intent::FocusWorkspace(9)),
        "{\"t\":\"focus-workspace\",\"id\":9}\n"
    );
}

#[test]
fn levels_round_like_the_formatting_of_floats() {
    let mut samples = vec![
        0.0, -0.0, 1.0, 2.0, -3.0, 0.5, 0.00005, 0.00015, 0.99995, 0.99994999, 0.33333, 1e-300,
        5e-324, 0.12345, 0.1, 0.7, 0.99999,
    ];
    for i in 0..2000 {
        samples.push(i as f64 / 1999.0);
        samples.push((i as f64 + 0.5) / 10000.0);
    }
    for x in samples {
        let level = x.clamp(0.0, 1.0);
        let expected = format!("{{\"t\":\"set-volume\",\"level\":{level:.4}}}\n");
        assert_eq!(encode_intent(&Intent::SetVolume(scalar(x))), expected, "{x}");
    }
    assert_eq!(
        encode_intent(&Intent::SetVolume(scalar(f64::INFINITY))),
        "{\"t\":\"set-volume\",\"level\":0.0000}\n"
    );
    assert_eq!(
        encode_intent(&Intent::FocusWorkspace(u64::MAX)),
        "{\"t\":\"focus-workspace\",\"id\":18446744073709551615}\n"
    );
}

#[test]
fn line_buffer_reassembles_partial_reads() {
    let mut buf = LineBuffer::new();
    assert_eq!(buf.push(b"{\"t\":\"he").unwrap(), Vec::<String>::new());
    assert_eq!(
        buf.push(b"llo\",\"v\":1}\n{\"a\":2}\n{").unwrap(),
        vec![r#"{"t":"hello","v":1}"#.to_string(), r#"{"a":2}"#.to_string()]
    );
    assert_eq!(buf.push(b"}\n").unwrap(), vec!["{}".to_string()]);
}

#[test]
fn line_buffer_caps_line_length() {
    let mut buf = LineBuffer::new();
    let big = vec![b'x'; MAX_LINE_BYTES + 1];
    assert_eq!(buf.push(&big), Err(LineOverflow));

    let mut buf = LineBuffer::new();
    let mut terminated = vec![b'y'; MAX_LINE_BYTES + 1];
    terminated.push(b'\n');
    assert_eq!(buf.push(&terminated), Err(LineOverflow));
}

#[test]
fn line_buffer_accepts_the_longest_line_and_replaces_bad_utf8() {
    let mut buf = LineBuffer::new();
    let mut line = vec![b'z'; MAX_LINE_BYTES];
    line.push(b'\n');
    assert_eq!(buf.push(&line).unwrap()[0].len(), MAX_LINE_BYTES);
    assert_eq!(buf.push(b"a\xffb\n\xc3\xa9\n").unwrap(), vec!["a\u{fffd}b", "\u{e9}"]);
}

#[test]
fn lines_are_the_same_however_the_stream_is_cut() {
    let stream = b"one\n\ntwo two\nthree";
    let mut whole = LineBuffer::new();
    let expected = whole.push(stream).unwrap();
    for cut in 0..stream.len() {
        let mut buf = LineBuffer::new();
        let mut lines = buf.push(&stream[..cut]).unwrap();
        lines.extend(buf.push(&stream[cut..]).unwrap());
        assert_eq!(lines, expected);
        assert_eq!(buf.push(b"\n").unwrap(), vec!["three"]);
    }
}

#[test]
fn error_budget_trips_on_consecutive_invalid_and_resets_on_valid() {
    let mut budget = ErrorBudget::new();
    for _ in 0..6 {
        assert!(!budget.on_invalid());
    }
    budget.on_valid();
    for _ in 0..7 {
        assert!(!budget.on_invalid());
    }
    assert!(budget.on_invalid());
}

#[test]
fn error_budget_trips_on_message_flood() {
    let mut budget = ErrorBudget::new();
    let t0 = at(0);
    for _ in 0..200 {
        assert!(!budget.on_message(t0));
    }
    assert!(budget.on_message(t0));
    // A new window resets the counter.
    assert!(!budget.on_message(at(1100)));
}

#[test]
fn hello_must_come_first_and_match_version() {
    let mut client = Client::new();
    assert!(ingest(&mut client, b"{\"t\":\"state\",\"outs\":[]}\n", at(0)).0);

    let mut client = Client::new();
    assert!(ingest(&mut client, b"{\"t\":\"hello\",\"v\":2}\n", at(0)).0);

    let mut client = Client::new();
    assert!(!ingest(&mut client, b"{\"t\":\"hello\",\"v\":1}\n", at(0)).0);
    assert!(client.is_greeted());
}

#[test]
fn state_parses_across_partial_reads() {
    let mut client = Client::new();
    let now = at(0);
    assert!(!ingest(&mut client, b"{\"t\":\"hello\",\"v\":1}\n", now).0);

    let full = br#"{"t":"state","outs":[{"name":"eDP-1","ws":[{"id":7,"idx":1,"occ":true,"foc":true}]}]}"#;
    let (first, second) = full.split_at(20);
    assert!(ingest(&mut client, first, now).1.is_empty());
    let mut tail = second.to_vec();
    tail.push(b'\n');
    let (_, states) = ingest(&mut client, &tail, now);

    assert_eq!(states.len(), 1);
    assert_eq!(
        states[0].outs,
        vec![OutputGroup { name: "eDP-1".into(), ws: vec![entry(7, 1, true, true)] }]
    );
}

#[test]
fn garbage_after_hello_eventually_disconnects() {
    let mut client = Client::new();
    let now = at(0);
    assert!(!ingest(&mut client, b"{\"t\":\"hello\",\"v\":1}\n", now).0);

    let mut disconnected = false;
    for _ in 0..8 {
        if ingest(&mut client, b"garbage\n", now).0 {
            disconnected = true;
            break;
        }
    }
    assert!(disconnected);
}

#[test]
fn oversize_line_disconnects_immediately() {
    let mut client = Client::new();
    let now = at(0);
    assert!(!ingest(&mut client, b"{\"t\":\"hello\",\"v\":1}\n", now).0);

    let big = vec![b'x'; 5000];
    assert!(ingest(&mut client, &big, now).0);
}

#[test]
fn every_violation_has_its_reason() {
    let now = at(0);
    let mut client = Client::new();
    assert_eq!(client.receive(&vec![b'x'; 5000]).unwrap_err(), Violation::OversizeLine);

    let mut client = Client::new();
    let out = client.ingest(vec![None], now);
    assert_eq!(out.disconnect, Some(Violation::NoHello));

    let mut client = Client::new();
    let out = client.ingest(vec![Some(HelperMessage::Hello { v: 3 })], now);
    assert_eq!(out.disconnect, Some(Violation::UnsupportedVersion(3)));

    let mut client = Client::new();
    let mut messages = vec![Some(HelperMessage::Hello { v: 1 })];
    for _ in 0..8 {
        messages.push(Some(HelperMessage::Hello { v: 1 }));
    }
    assert_eq!(client.ingest(messages, now).disconnect, Some(Violation::TooManyInvalid));

    let mut client = Client::new();
    let mut messages = vec![Some(HelperMessage::Hello { v: 1 })];
    for _ in 0..200 {
        messages.push(Some(HelperMessage::State(state(vec![]))));
    }
    let out = client.ingest(messages, now);
    assert_eq!(out.disconnect, Some(Violation::Flood));
    assert_eq!(out.states.len(), 199);
}

#[test]
fn peer_gate_allows_owner_and_root_only() {
    assert!(peer_allowed(1000, 1000));
    assert!(peer_allowed(0, 1000));
    assert!(!peer_allowed(1001, 1000));
    assert!(!peer_allowed(65534, 1000));
}

#[test]
fn staleness_math() {
    let mut link = HelperLink::new(1000);
    link.attach();
    let t0 = at(0);

    assert!(!link.is_fresh(t0)); // connected but never any state
    assert!(feed(
        &mut link,
        b"{\"t\":\"hello\",\"v\":1}\n{\"t\":\"state\",\"outs\":[]}\n",
        t0
    ));
    assert!(link.is_fresh(at(5000)));
    assert!(!link.is_fresh(at(7000)));
    assert_eq!(link.staleness_timeout_ms(at(1500)), Some(4500));
    assert_eq!(link.staleness_timeout_ms(at(7000)), Some(1));

    assert!(link.drop_client());
    assert!(!link.is_fresh(t0)); // no client is always stale
    assert_eq!(link.staleness_timeout_ms(t0), None);
}

#[test]
fn the_newest_allowed_connection_wins() {
    let mut link = HelperLink::new(1000);
    assert_eq!(link.offer(Some(1001), true), Offer::Refused);
    assert_eq!(link.offer(None, true), Offer::Refused);
    assert_eq!(link.offer(Some(1000), false), Offer::Refused);
    assert_eq!(link.offer(Some(1000), true), Offer::Accepted { replaced: false });
    assert!(!link.is_connected());
    link.attach();
    assert!(link.is_connected());
    assert_eq!(link.offer(Some(4), true), Offer::Refused);
    assert!(link.is_connected());
    assert_eq!(link.offer(Some(0), true), Offer::Accepted { replaced: true });
    assert!(!link.is_connected());
}

#[test]
fn a_reconnect_keeps_the_last_state() {
    let mut link = HelperLink::new(1000);
    link.attach();
    let now = at(0);
    assert!(feed(
        &mut link,
        b"{\"t\":\"hello\",\"v\":1}\n{\"t\":\"state\",\"outs\":[{\"ws\":[{\"id\":5,\"idx\":2}]}],\"vol\":{\"level\":0.5}}\n",
        now
    ));
    assert_eq!(float(link.volume(now).unwrap()), 0.5);
    assert_eq!(link.offer(Some(1000), true), Offer::Accepted { replaced: true });
    assert_eq!(link.volume(now), None);
    link.attach();
    assert!(link.is_fresh(at(100)));
    assert_eq!(link.workspaces(), vec![vec![entry(5, 2, false, false)]]);
    assert_eq!(link.state().outs.len(), 1);
}

#[test]
fn violations_drop_the_client_of_a_link() {
    let mut link = HelperLink::new(1000);
    link.attach();
    assert!(!feed(&mut link, b"nonsense\n", at(0)));
    assert!(!link.is_connected());

    link.attach();
    assert!(link.receive(&vec![b'x'; 5000]).is_err());
    assert!(!link.is_connected());
}

#[test]
fn intents_need_a_greeted_client_and_a_whole_write() {
    let mut link = HelperLink::new(1000);
    let intent = Intent::FocusWorkspace(3);
    assert_eq!(link.send_intent(&intent), None);
    link.attach();
    assert_eq!(link.send_intent(&intent), None);
    feed(&mut link, b"{\"t\":\"hello\",\"v\":1}\n", at(0));
    let line = link.send_intent(&intent).unwrap();
    assert_eq!(line, "{\"t\":\"focus-workspace\",\"id\":3}\n");
    assert!(!link.sent(&line, Some(line.len())));
    assert!(link.is_connected());
    assert!(link.sent(&line, Some(4)));
    assert!(!link.is_connected());
    link.attach();
    assert!(link.sent(&line, None));
    assert!(!link.is_connected());
}

#[test]
fn batches_do_not_matter_to_a_session() {
    let bytes: &[u8] = b"{\"t\":\"hello\",\"v\":1}\nbad\n{\"t\":\"state\",\"outs\":[]}\nbad\n";
    let now = at(0);
    let mut whole = Client::new();
    let (ended, states) = ingest(&mut whole, bytes, now);
    for cut in 0..bytes.len() {
        let mut parts = Client::new();
        let first = ingest(&mut parts, &bytes[..cut], now);
        let second = ingest(&mut parts, &bytes[cut..], now);
        assert_eq!(first.0 || second.0, ended);
        assert_eq!(first.1.len() + second.1.len(), states.len());
    }
}

#[test]
fn sanitizing_twice_changes_nothing_more() {
    let once = sanitize_state(StateMsg {
        outs: vec![
            OutputGroup { name: "a".into(), ws: vec![entry(1, 40, true, true), entry(2, 1, true, true)] },
            OutputGroup { name: "b".into(), ws: vec![entry(3, 1, true, true)] },
        ],
        vol: Some(Vol { level: scalar(-0.5), muted: true }),
        claude: Some(ClaudePresence { sessions: vec![ClaudeSession { id: "é".repeat(70) }] }),
        media: None,
    });
    assert_eq!(once.outs[0].ws, vec![entry(2, 1, true, true)]);
    assert_eq!(once.outs[1].ws, vec![entry(3, 1, true, false)]);
    assert_eq!(once.claude.as_ref().unwrap().sessions[0].id.chars().count(), 64);
    let again = sanitize_state(StateMsg {
        outs: vec![
            OutputGroup { name: "a".into(), ws: vec![entry(2, 1, true, true)] },
            OutputGroup { name: "b".into(), ws: vec![entry(3, 1, true, false)] },
        ],
        vol: once.vol,
        claude: Some(ClaudePresence { sessions: vec![ClaudeSession { id: "é".repeat(64) }] }),
        media: None,
    });
    assert_eq!(again, once);
}

#[test]
fn media_text_and_paths_are_cleaned() {
    assert_eq!(clean_media_text(" \u{7}a\tb\u{85} c ", 3), "ab ");
    assert_eq!(clean_media_text("abc", 0), "");
    let long = format!("/run/tiny-dfr-ben/media/{}.png", "x".repeat(512));
    assert_eq!(clean_media_art_path(long), None);
    assert_eq!(
        clean_media_art_path(" /run/tiny-dfr-ben/media/a.png\n".to_string()).as_deref(),
        Some("/run/tiny-dfr-ben/media/a.png")
    );
}
