use plurimus::color::ColorDepth;
use plurimus::terminal::{
    base64_len, color_depth_from_env, copy_verdict, serve_plan, ClipboardTarget, CopyVerdict,
    CrosstermPlugin, PendingRequests, TerminalRequest, OSC52_MAX_BASE64,
};

#[test]
fn colorterm_truecolor_wins_over_term() {
    assert_eq!(
        color_depth_from_env(Some("truecolor"), Some("xterm-256color")),
        ColorDepth::TrueColor
    );
    assert_eq!(color_depth_from_env(Some("24bit"), None), ColorDepth::TrueColor);
}

#[test]
fn term_with_256color_maps_to_ansi256() {
    assert_eq!(
        color_depth_from_env(None, Some("xterm-256color")),
        ColorDepth::Ansi256
    );
    assert_eq!(
        color_depth_from_env(Some("yes"), Some("screen-256color")),
        ColorDepth::Ansi256
    );
}

#[test]
fn plain_term_maps_to_ansi16() {
    assert_eq!(color_depth_from_env(None, Some("xterm")), ColorDepth::Ansi16);
    assert_eq!(color_depth_from_env(None, Some("linux")), ColorDepth::Ansi16);
}

#[test]
fn missing_or_dumb_term_floors_at_ansi16() {
    assert_eq!(color_depth_from_env(None, None), ColorDepth::Ansi16);
    assert_eq!(color_depth_from_env(None, Some("dumb")), ColorDepth::Ansi16);
}

#[test]
fn a_partial_256color_name_is_not_enough() {
    assert_eq!(color_depth_from_env(None, Some("xterm-256colo")), ColorDepth::Ansi16);
    assert_eq!(color_depth_from_env(Some("truecolors"), None), ColorDepth::Ansi16);
}

#[test]
fn writer_generic_construction_hands_the_writer_to_build() {
    let mut plugin = CrosstermPlugin::with_writer(Vec::<u8>::new())
        .mouse(false)
        .paste(false)
        .detect_color_depth(false);

    let writer: Vec<u8> = plugin.take_writer();

    assert!(writer.is_empty());
}

#[test]
fn builders_keep_the_other_flags() {
    let plugin = CrosstermPlugin::with_writer(Vec::<u8>::new());
    assert!(plugin.mouse_enabled());
    assert!(plugin.paste_enabled());
    assert!(!plugin.clipboard_enabled());
    assert!(plugin.detects_color_depth());
    let plugin = plugin.clipboard(true).mouse(false);
    assert!(plugin.clipboard_enabled());
    assert!(!plugin.mouse_enabled());
    assert!(plugin.paste_enabled());
}

#[test]
fn base64_length_matches_what_encoding_would_produce() {
    for (bytes, expected) in [(0, 0), (1, 4), (2, 4), (3, 4), (4, 8), (6, 8), (7, 12)] {
        assert_eq!(base64_len(bytes), expected, "{bytes} bytes");
    }
}

#[test]
fn a_copy_writes_nothing_while_the_capability_is_off() {
    assert!(serve_plan(&[TerminalRequest::copy("hi".to_owned())], false).is_empty());
    assert_eq!(copy_verdict(2, false), CopyVerdict::Disabled);
}

#[test]
fn an_oversized_copy_is_dropped_rather_than_truncated() {
    let huge = "x".repeat(OSC52_MAX_BASE64);
    assert!(serve_plan(&[TerminalRequest::copy(huge)], true).is_empty());
    assert_eq!(
        copy_verdict(OSC52_MAX_BASE64, true),
        CopyVerdict::Oversized(base64_len(OSC52_MAX_BASE64))
    );
}

#[test]
fn a_title_needs_no_capability_flag() {
    assert_eq!(
        serve_plan(&[TerminalRequest::SetTitle("plurimus".to_owned())], false),
        vec![0]
    );
}

#[test]
fn requests_are_written_in_the_order_they_were_sent() {
    let plan = serve_plan(
        &[
            TerminalRequest::SetTitle("first".to_owned()),
            TerminalRequest::copy("hi".to_owned()),
        ],
        true,
    );
    assert_eq!(plan, vec![0, 1]);
}

#[test]
fn the_destination_picks_the_selection_character() {
    let primary = TerminalRequest::CopyToClipboard {
        content: "hi".to_owned(),
        destination: ClipboardTarget::Primary,
    };
    assert_eq!(serve_plan(&[primary], true), vec![0]);
}

#[test]
fn a_copy_at_the_limit_still_goes_out() {
    // 56_244 bytes encode to 74_992, the largest padded payload that fits.
    assert_eq!(base64_len(56_244), 74_992);
    assert!(base64_len(56_244) <= OSC52_MAX_BASE64);
    assert_eq!(copy_verdict(56_244, true), CopyVerdict::Send);
    assert_eq!(copy_verdict(56_245, true), CopyVerdict::Oversized(74_996));
}

#[test]
fn multibyte_content_counts_in_bytes() {
    // Two characters, six UTF-8 bytes: eight base64 bytes.
    let copy = TerminalRequest::copy("ああ".to_owned());
    assert_eq!(serve_plan(&[copy], true), vec![0]);
    assert_eq!(base64_len("ああ".len()), 8);
}

#[test]
fn a_request_is_served_once_and_not_replayed() {
    let mut pending = PendingRequests::new();
    pending.extend(vec![TerminalRequest::copy("hi".to_string())]);

    let first = pending.take();
    assert_eq!(serve_plan(&first, true), vec![0]);

    let second = pending.take();
    assert!(second.is_empty(), "a second frame repeats it");
    assert!(serve_plan(&second, true).is_empty());
}

#[test]
fn a_request_reaches_the_terminal_on_a_frame_that_draws_nothing() {
    let mut pending = PendingRequests::new();
    assert!(pending.take().is_empty());

    pending.extend(vec![TerminalRequest::copy("hi".to_string())]);
    let served = pending.take();

    assert_eq!(serve_plan(&served, true), vec![0]);
    assert_eq!(base64_len("hi".len()), "aGk=".len());
}

#[test]
fn requests_sent_across_frames_queue_in_order() {
    let mut pending = PendingRequests::new();
    pending.extend(vec![TerminalRequest::SetTitle("one".to_string())]);
    pending.extend(vec![
        TerminalRequest::copy("two".to_string()),
        TerminalRequest::SetTitle("three".to_string()),
    ]);

    let served = pending.take();
    assert_eq!(served.len(), 3);
    assert!(matches!(&served[0], TerminalRequest::SetTitle(t) if t == "one"));
    assert!(matches!(&served[1], TerminalRequest::CopyToClipboard { content, .. } if content == "two"));
    assert!(matches!(&served[2], TerminalRequest::SetTitle(t) if t == "three"));
}
