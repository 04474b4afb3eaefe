use diffmark::clipboard::{
    candidate_methods, copy_osc52, copy_to_clipboard, is_command_path, is_wsl, known_methods,
    pipe_to, try_method, utf16_with_mark, ClipboardHost, ClipboardResult, CopyReply, CopyRequest,
};

fn host(wsl: bool, installed: &[&str], tmux: bool) -> ClipboardHost {
    ClipboardHost {
        wsl,
        installed: installed.iter().map(|name| name.to_string()).collect(),
        tmux,
    }
}

fn copy(
    text: &str,
    allow_osc52: bool,
    host: &ClipboardHost,
    answer: impl Fn(&CopyRequest) -> CopyReply,
) -> (ClipboardResult, Vec<CopyRequest>) {
    let mut asked = Vec::new();
    let mut copying = copy_to_clipboard(text, allow_osc52, host);
    while let Some(request) = copying.request() {
        let reply = answer(&request);
        asked.push(request);
        copying = copying.supply(reply);
    }
    (copying.result().unwrap(), asked)
}

fn fail(request: &CopyRequest) -> CopyReply {
    match request {
        CopyRequest::Run(_) => CopyReply::Ran(Err("no".to_string())),
        CopyRequest::Print(_) => CopyReply::Printed(Err("no".to_string())),
        CopyRequest::Write { .. } => CopyReply::Written(Err("disk full".to_string())),
    }
}

#[test]
fn windows_is_recognized() {
    assert!(is_wsl(Some("Linux version 5.15 (root@Microsoft) #1")));
    assert!(is_wsl(Some("linux WSL2")));
    assert!(!is_wsl(Some("Linux version 6.1 ws l")));
    assert!(!is_wsl(None));
}

#[test]
fn commands_are_tried_in_order() {
    let all = [
        "clip.exe", "powershell.exe", "termux-clipboard-set", "pbcopy", "xsel", "xclip", "wl-copy",
    ];
    assert_eq!(
        candidate_methods(&host(true, &all, false)),
        vec!["powershell.exe", "clip.exe", "wl-copy", "xclip", "xsel", "pbcopy", "termux-clipboard-set"]
    );
    assert_eq!(
        candidate_methods(&host(false, &all, false)),
        vec!["wl-copy", "xclip", "xsel", "pbcopy", "termux-clipboard-set", "powershell.exe", "clip.exe"]
    );
    assert_eq!(
        candidate_methods(&host(false, &["clip.exe", "xsel", "other"], false)),
        vec!["xsel", "clip.exe"]
    );
    assert_eq!(known_methods(false).len(), 7);
}

#[test]
fn commands_get_the_text() {
    let command = try_method("wl-copy", "h\u{e9}").unwrap();
    assert_eq!(command.program, "wl-copy");
    assert!(command.args.is_empty());
    assert_eq!(command.input, vec![0x68, 0xc3, 0xa9]);
    assert_eq!(
        try_method("xclip", "x").unwrap().args,
        vec!["-selection", "clipboard"]
    );
    assert_eq!(
        try_method("xsel", "x").unwrap().args,
        vec!["--clipboard", "--input"]
    );
    assert!(try_method("pbcopy", "x").unwrap().args.is_empty());
    assert!(try_method("termux-clipboard-set", "x").unwrap().args.is_empty());
    let shell = try_method("powershell.exe", "x").unwrap();
    assert_eq!(shell.args.len(), 4);
    assert_eq!(
        shell.args[3],
        "[Console]::InputEncoding = [System.Text.Encoding]::UTF8; $text = [Console]::In.ReadToEnd(); Set-Clipboard -Value $text"
    );
    assert_eq!(
        try_method("clip.exe", "a").unwrap().input,
        vec![0xff, 0xfe, 0x61, 0x00]
    );
    assert_eq!(
        try_method("other", "a"),
        Err("unknown clipboard method: other".to_string())
    );
}

#[test]
fn text_is_encoded_in_utf16() {
    for text in ["", "a\u{e9}\u{4e2d}", "\u{1f600}\u{10ffff}\u{10000}\u{ffff}"] {
        let mut wanted = vec![0xff, 0xfe];
        for unit in text.encode_utf16() {
            wanted.extend_from_slice(&unit.to_le_bytes());
        }
        assert_eq!(utf16_with_mark(text), wanted);
    }
}

#[test]
fn the_terminal_gets_base64() {
    assert_eq!(copy_osc52("", false), "\x1b]52;c;\x07");
    assert_eq!(copy_osc52("M", false), "\x1b]52;c;TQ==\x07");
    assert_eq!(copy_osc52("Ma", false), "\x1b]52;c;TWE=\x07");
    assert_eq!(copy_osc52("Man", false), "\x1b]52;c;TWFu\x07");
    assert_eq!(copy_osc52("\u{3ff}\u{3fb}?>", false), "\x1b]52;c;z7/Puz8+\x07");
    assert_eq!(
        copy_osc52("M", true),
        "\x1bPtmux;\x1b\x1b]52;c;TQ==\x07\x1b\\"
    );
}

#[test]
fn failed_commands_report_what_they_wrote() {
    assert_eq!(pipe_to(true, b"noise"), Ok(()));
    assert_eq!(pipe_to(false, b" bad\xff \n"), Err("bad\u{fffd}".to_string()));
}

#[test]
fn the_first_command_that_works_copies() {
    let (result, asked) = copy("t", true, &host(false, &["xclip", "xsel", "pbcopy"], false), |request| {
        match request {
            CopyRequest::Run(command) if command.program == "xsel" => CopyReply::Ran(Ok(())),
            other => fail(other),
        }
    });
    assert_eq!(
        result,
        ClipboardResult {
            ok: true,
            message: "copied to clipboard via xsel".to_string(),
        }
    );
    assert_eq!(asked.len(), 2);
}

#[test]
fn the_terminal_is_asked_after_the_commands() {
    let (result, asked) = copy("M", true, &host(false, &["xclip"], true), |request| match request {
        CopyRequest::Print(_) => CopyReply::Printed(Ok(())),
        other => fail(other),
    });
    assert!(result.ok);
    assert_eq!(
        result.message,
        "sent OSC52 clipboard sequence; terminal support may vary"
    );
    assert_eq!(asked[1], CopyRequest::Print(copy_osc52("M", true)));
}

#[test]
fn the_last_way_is_a_file() {
    let (result, asked) = copy("text", false, &host(false, &[], false), |request| match request {
        CopyRequest::Write { file_name, .. } => CopyReply::Written(Ok(format!("/tmp/{file_name}"))),
        other => fail(other),
    });
    assert_eq!(
        result,
        ClipboardResult {
            ok: false,
            message: "clipboard unavailable; payload written to /tmp/diffmark-last-comment.txt"
                .to_string(),
        }
    );
    assert_eq!(
        asked,
        vec![CopyRequest::Write {
            file_name: "diffmark-last-comment.txt".to_string(),
            text: "text".to_string(),
        }]
    );
    let (result, asked) = copy("text", true, &host(false, &[], false), fail);
    assert_eq!(
        result.message,
        "clipboard unavailable; failed to write fallback: disk full"
    );
    assert!(!result.ok);
    assert_eq!(asked.len(), 2);
}

#[test]
fn command_paths_have_a_slash() {
    assert!(is_command_path("./x"));
    assert!(!is_command_path("xclip"));
}
