use fw_fanctrl_rs::terminal::{da1_reply_complete, graphics_choice, kitty_payload, terminal_support, TerminalSupport, KITTY_CHUNK_SIZE};

#[test]
fn detects_kitty_and_sixel() {
    let reply = b"\x1b_Gi=31;OK\x1b\\\x1b[?62;4;22c";
    assert_eq!(terminal_support(reply), TerminalSupport { sixel: true, kitty: true });
    let reply = b"\x1b[?62;22c";
    assert_eq!(terminal_support(reply), TerminalSupport { sixel: false, kitty: false });
    let reply = b"\x1b[?4c";
    assert_eq!(terminal_support(reply), TerminalSupport { sixel: true, kitty: false });
    // "14" and "41" are not "4"
    let reply = b"\x1b[?14;41c";
    assert_eq!(terminal_support(reply), TerminalSupport { sixel: false, kitty: false });
    // no terminating `c`
    let reply = b"\x1b[?4;6";
    assert_eq!(terminal_support(reply), TerminalSupport { sixel: false, kitty: false });
    assert_eq!(terminal_support(b""), TerminalSupport { sixel: false, kitty: false });
    // only the first DA1 reply counts
    let reply = b"\x1b[?1c\x1b[?4c";
    assert_eq!(terminal_support(reply), TerminalSupport { sixel: false, kitty: false });
    // an empty field next to 4
    let reply = b"\x1b[?;4;c";
    assert_eq!(terminal_support(reply).sixel, true);
}

#[test]
fn da1_completion() {
    assert!(!da1_reply_complete(b""));
    assert!(!da1_reply_complete(b"\x1b[?62;4"));
    assert!(da1_reply_complete(b"\x1b[?62;4c"));
    assert!(!da1_reply_complete(b"abc"));
    assert!(da1_reply_complete(b"\x1b_G;OK\x1b\\\x1b[?1c"));
}

#[test]
fn kitty_single_chunk() {
    let out = kitty_payload(b"hello");
    assert_eq!(out, b"\x1b_Ga=T,f=100,m=0;aGVsbG8=\x1b\\\n".to_vec());
    assert_eq!(kitty_payload(b""), b"\n".to_vec());
}

#[test]
fn kitty_splits_into_chunks() {
    // 3100 bytes encode to 4136 base64 bytes: one full chunk and one of 40
    let png: Vec<u8> = vec![0u8; 3100];
    let out = kitty_payload(&png);
    let head = b"\x1b_Ga=T,f=100,m=1;";
    assert_eq!(&out[..head.len()], head);
    let body = &out[head.len()..head.len() + KITTY_CHUNK_SIZE];
    assert!(body.iter().all(|&b| b == b'A'));
    let rest = &out[head.len() + KITTY_CHUNK_SIZE..];
    let mut expected = b"\x1b\\\x1b_Gm=0;".to_vec();
    expected.extend(std::iter::repeat(b'A').take(38));
    expected.extend_from_slice(b"==\x1b\\\n");
    assert_eq!(rest, &expected[..]);
}

#[test]
fn graphics_protocol_choice() {
    let both = TerminalSupport { sixel: true, kitty: true };
    let sixel_only = TerminalSupport { sixel: true, kitty: false };
    let none = TerminalSupport { sixel: false, kitty: false };
    assert_eq!(graphics_choice(both, false, false), (true, false));
    assert_eq!(graphics_choice(sixel_only, false, false), (false, true));
    assert_eq!(graphics_choice(none, false, false), (false, false));
    assert_eq!(graphics_choice(none, false, true), (true, false));
    assert_eq!(graphics_choice(both, true, false), (false, true));
    assert_eq!(graphics_choice(none, true, true), (false, true));
}
