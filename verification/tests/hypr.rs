use std::path::PathBuf;
use vbar::hypr::{
    check_dispatch_reply, dispatch_command, doorbell, event_socket, first_ipc_dir, ipc_dirs,
    join_path, request_socket, EventBuffer, IpcDirError, Received,
};

#[test]
fn dispatch_request_text() {
    assert_eq!(dispatch_command("hl.dsp.submap(\"reset\")"), "dispatch hl.dsp.submap(\"reset\")");
    assert_eq!(dispatch_command(""), "dispatch ");
}

#[test]
fn ok_reply_is_success_whatever_the_whitespace() {
    assert!(check_dispatch_reply("x", "ok").is_ok());
    assert!(check_dispatch_reply("x", "ok\n").is_ok());
    assert!(check_dispatch_reply("x", "  ok \r\n").is_ok());
}

#[test]
fn other_replies_are_refusals() {
    let e = check_dispatch_reply("hl.dsp.focus({ workspace = \"3\" })", "  invalid dispatcher\n").unwrap_err();
    assert_eq!(e.dispatcher, "hl.dsp.focus({ workspace = \"3\" })");
    assert_eq!(e.reply, "invalid dispatcher");
    assert_eq!(e.message(), "dispatch hl.dsp.focus({ workspace = \"3\" }): invalid dispatcher");
    assert!(check_dispatch_reply("x", "").is_err());
    assert!(check_dispatch_reply("x", "okay").is_err());
    assert!(check_dispatch_reply("x", "OK").is_err());
}

#[test]
fn paths_join_like_pathbuf() {
    for (base, part) in [("/run/user/1000", "hypr"), ("/run/user/1000/", "hypr"), ("", "hypr"), ("/a", "/abs"), ("rel", "x")] {
        let got = join_path(&base.as_bytes().to_vec(), &part.as_bytes().to_vec());
        let want = PathBuf::from(base).join(part);
        assert_eq!(String::from_utf8(got).unwrap(), want.to_str().unwrap());
    }
}

#[test]
fn ipc_dirs_in_order() {
    let sig = b"abc_123".to_vec();
    let run = b"/run/user/1000".to_vec();
    let dirs = ipc_dirs(&sig, Some(&run));
    assert_eq!(dirs, vec![b"/run/user/1000/hypr/abc_123".to_vec(), b"/tmp/hypr/abc_123".to_vec()]);
    assert_eq!(ipc_dirs(&sig, None), vec![b"/tmp/hypr/abc_123".to_vec()]);
}

#[test]
fn first_existing_dir_wins() {
    let dirs = vec![b"/a".to_vec(), b"/b".to_vec()];
    assert_eq!(first_ipc_dir("s", &dirs, &vec![true, true]).ok(), Some(b"/a".to_vec()));
    assert_eq!(first_ipc_dir("s", &dirs, &vec![false, true]).ok(), Some(b"/b".to_vec()));
    match first_ipc_dir("sig", &dirs, &vec![false, false]) {
        Err(e) => {
            assert!(matches!(&e, IpcDirError::NoDirectory(s) if s == "sig"));
            assert_eq!(e.message(), "no Hyprland IPC directory for instance sig");
        }
        Ok(_) => panic!("no directory exists"),
    }
    assert_eq!(
        IpcDirError::SignatureUnset.message(),
        "HYPRLAND_INSTANCE_SIGNATURE is unset; is Hyprland running?"
    );
}

#[test]
fn socket_names() {
    let dir = b"/tmp/hypr/sig".to_vec();
    assert_eq!(request_socket(&dir), b"/tmp/hypr/sig/.socket.sock".to_vec());
    assert_eq!(event_socket(&dir), b"/tmp/hypr/sig/.socket2.sock".to_vec());
}

#[test]
fn feed_hands_on_whole_lines() {
    let mut b = EventBuffer::new();
    assert_eq!(b.feed("workspace>>3\nsubm"), vec!["workspace>>3".to_string()]);
    assert_eq!(b.feed("ap>>vbar  \r\n\nactivewindow>>kitty,"), vec!["submap>>vbar".to_string(), "".to_string()]);
    assert_eq!(b.feed("x\n"), vec!["activewindow>>kitty,x".to_string()]);
    assert!(b.feed("").is_empty());
}

#[test]
fn feeding_in_pieces_is_feeding_at_once() {
    let text = "a>>1\nb>>2\r\nc>>3\n\nd>>";
    let mut whole = EventBuffer::new();
    let all = whole.feed(text);
    for cut in 0..=text.len() {
        let mut b = EventBuffer::new();
        let mut got = b.feed(&text[..cut]);
        got.extend(b.feed(&text[cut..]));
        assert_eq!(got, all);
        let mut b2 = EventBuffer::new();
        b2.feed(&text[..cut]);
        b2.feed(&text[cut..]);
        assert_eq!(b2.feed("\n"), vec!["d>>".to_string()]);
    }
}

#[test]
fn receive_outcomes() {
    let mut b = EventBuffer::new();
    let step = b.on_receive(Received::Data(b"submap>>vbar\nsub".to_vec()));
    assert!(step.keep_watching);
    assert_eq!(step.events, vec!["submap>>vbar".to_string()]);
    let step = b.on_receive(Received::WouldBlock);
    assert!(step.keep_watching && step.events.is_empty());
    let step = b.on_receive(Received::Data(b"map>>\n".to_vec()));
    assert_eq!(step.events, vec!["submap>>".to_string()]);
    let step = b.on_receive(Received::Data(Vec::new()));
    assert!(!step.keep_watching && step.events.is_empty());
    let step = b.on_receive(Received::Failed);
    assert!(!step.keep_watching && step.events.is_empty());
}

#[test]
fn invalid_utf8_is_replaced() {
    let mut b = EventBuffer::new();
    let step = b.on_receive(Received::Data(vec![b'a', 0xff, b'b', b'\n', 0xc3, 0xa9, b'\n']));
    assert_eq!(step.events, vec!["a\u{fffd}b".to_string(), "é".to_string()]);
}

#[test]
fn doorbell_rings_on_data() {
    let d = doorbell(&Received::Data(vec![1]));
    assert!(d.ring && d.keep_watching);
    let d = doorbell(&Received::Data(vec![]));
    assert!(!d.ring && !d.keep_watching);
    let d = doorbell(&Received::WouldBlock);
    assert!(!d.ring && d.keep_watching);
    let d = doorbell(&Received::Failed);
    assert!(!d.ring && !d.keep_watching);
}
