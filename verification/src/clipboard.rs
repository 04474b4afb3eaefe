//! Copying a text to the clipboard: which ways there are, what each is given, and what is said of
//! the outcome.

use crate::git_diff;
use crate::text;
use vstd::prelude::*;

verus! {

/// What came of copying a text.
#[derive(Debug, PartialEq, Eq)]
pub struct ClipboardResult {
    pub ok: bool,
    pub message: String,
}

/// The model of a `ClipboardResult`.
#[verifier::ext_equal]
pub struct ClipboardResultView {
    pub ok: bool,
    pub message: Seq<char>,
}

impl View for ClipboardResult {
    type V = ClipboardResultView;

    open spec fn view(&self) -> ClipboardResultView {
        ClipboardResultView { ok: self.ok, message: self.message@ }
    }
}

impl Clone for ClipboardResult {
    fn clone(&self) -> (copy: Self)
        ensures
            copy == *self,
    {
        ClipboardResult { ok: self.ok, message: self.message.clone() }
    }
}

/// A character in lower case, if it is an ASCII letter.
pub open spec fn ascii_lower(c: char) -> char {
    if 'A' <= c <= 'Z' {
        (c as u32 + 32) as char
    } else {
        c
    }
}

/// A text with its ASCII letters in lower case.
pub open spec fn ascii_lowercase(s: Seq<char>) -> Seq<char> {
    s.map_values(|c: char| ascii_lower(c))
}

/// `pattern` occurs in `s`.
pub open spec fn contains_text(s: Seq<char>, pattern: Seq<char>) -> bool {
    text::find_text(s, pattern) is Some
}

/// A kernel version names the Windows Subsystem for Linux.
pub open spec fn names_wsl(version: Seq<char>) -> bool {
    contains_text(ascii_lowercase(version), "microsoft"@) || contains_text(
        ascii_lowercase(version),
        "wsl"@,
    )
}

/// Puts an ASCII letter in lower case.
fn lower(c: char) -> (result: char)
    ensures
        result == ascii_lower(c),
{
    if 'A' <= c && c <= 'Z' {
        (c as u8 + 32) as char
    } else {
        c
    }
}

/// Whether the system is the Windows Subsystem for Linux, by the text of `/proc/version` if it
/// could be read.
pub fn is_wsl(version: Option<&str>) -> (result: bool)
    ensures
        result == match version {
            Some(version) => names_wsl(version@),
            None => false,
        },
{
    let version = match version {
        Some(version) => version,
        None => return false,
    };
    let chars = text::chars_of(version);
    let mut lowered: Vec<char> = Vec::new();
    let mut i: usize = 0;
    while i < chars.len()
        invariant
            i <= chars@.len(),
            lowered@ == ascii_lowercase(chars@.take(i as int)),
        decreases chars@.len() - i,
    {
        lowered.push(lower(chars[i]));
        i += 1;
        assert(lowered@ =~= ascii_lowercase(chars@.take(i as int)));
    }
    assert(chars@.take(chars@.len() as int) =~= chars@);
    text::find_in(lowered.as_slice(), "microsoft").is_some() || text::find_in(
        lowered.as_slice(),
        "wsl",
    ).is_some()
}

/// Whether a command is given as a path, which is not looked up in the search path.
pub fn is_command_path(command: &str) -> (result: bool)
    ensures
        result == command@.contains('/'),
{
    let chars = text::chars_of(command);
    let at = text::find_char_from(chars.as_slice(), '/', 0);
    proof {
        assert(chars@.skip(0) =~= chars@);
        text::lemma_find_char(chars@, '/');
    }
    at < chars.len()
}

/// The commands that reach the clipboard of Windows.
pub open spec fn windows_methods() -> Seq<Seq<char>> {
    seq!["powershell.exe"@, "clip.exe"@]
}

/// The other commands that reach a clipboard.
pub open spec fn unix_methods() -> Seq<Seq<char>> {
    seq!["wl-copy"@, "xclip"@, "xsel"@, "pbcopy"@, "termux-clipboard-set"@]
}

/// All commands that reach a clipboard, in the order in which they are tried: under the Windows
/// Subsystem for Linux those of Windows come first, elsewhere last.
pub open spec fn method_order(wsl: bool) -> Seq<Seq<char>> {
    if wsl {
        windows_methods() + unix_methods()
    } else {
        unix_methods() + windows_methods()
    }
}

/// Lists the commands that reach a clipboard, in the order in which they are tried.
pub fn known_methods(wsl: bool) -> (methods: Vec<String>)
    ensures
        text::texts(methods@) == method_order(wsl),
{
    let mut methods: Vec<String> = Vec::new();
    if wsl {
        methods.push("powershell.exe".to_string());
        methods.push("clip.exe".to_string());
    }
    methods.push("wl-copy".to_string());
    methods.push("xclip".to_string());
    methods.push("xsel".to_string());
    methods.push("pbcopy".to_string());
    methods.push("termux-clipboard-set".to_string());
    if !wsl {
        methods.push("powershell.exe".to_string());
        methods.push("clip.exe".to_string());
    }
    assert(text::texts(methods@) =~= method_order(wsl));
    methods
}

/// What is known of the system that a text is copied on.
#[derive(Debug)]
pub struct ClipboardHost {
    /// The system is the Windows Subsystem for Linux.
    pub wsl: bool,
    /// The commands that were found.
    pub installed: Vec<String>,
    /// The terminal is inside tmux.
    pub tmux: bool,
}

/// The commands to try: those that were found, in the order in which they are tried.
pub open spec fn candidates(wsl: bool, installed: Seq<Seq<char>>) -> Seq<Seq<char>> {
    method_order(wsl).filter(|method: Seq<char>| installed.contains(method))
}

/// Whether a string is one of some strings.
fn is_among(wanted: &String, strings: &[String]) -> (result: bool)
    ensures
        result == text::texts(strings@).contains(wanted@),
{
    let ghost all = text::texts(strings@);
    let mut i: usize = 0;
    while i < strings.len()
        invariant
            i <= strings@.len(),
            all == text::texts(strings@),
            forall|j: int| 0 <= j < i ==> all[j] != wanted@,
        decreases strings@.len() - i,
    {
        assert(all[i as int] == strings@[i as int]@);
        if strings[i] == *wanted {
            return true;
        }
        i += 1;
    }
    false
}

/// Lists the commands to try.
pub fn candidate_methods(host: &ClipboardHost) -> (methods: Vec<String>)
    ensures
        text::texts(methods@) == candidates(host.wsl, text::texts(host.installed@)),
{
    let known = known_methods(host.wsl);
    let ghost all = method_order(host.wsl);
    let ghost installed = text::texts(host.installed@);
    let ghost pred = |method: Seq<char>| installed.contains(method);
    let mut methods: Vec<String> = Vec::new();
    let mut i: usize = 0;
    assert(all.take(0).filter(pred) =~= seq![]) by {
        reveal(Seq::filter);
    }
    while i < known.len()
        invariant
            i <= known@.len(),
            all == text::texts(known@),
            installed == text::texts(host.installed@),
            pred == |method: Seq<char>| installed.contains(method),
            text::texts(methods@) == all.take(i as int).filter(pred),
        decreases known@.len() - i,
    {
        assert(all.take(i + 1).drop_last() =~= all.take(i as int));
        assert(all.take(i + 1).last() == known@[i as int]@);
        reveal(Seq::filter);
        if is_among(&known[i], host.installed.as_slice()) {
            let ghost before = methods@;
            methods.push(known[i].clone());
            assert(text::texts(methods@) =~= text::texts(before).push(known@[i as int]@));
        }
        i += 1;
    }
    assert(all.take(known@.len() as int) =~= all);
    methods
}

/// A command that is run to copy a text, with what it is given to read.
#[derive(Debug, PartialEq, Eq)]
pub struct ClipboardCommand {
    pub program: String,
    pub args: Vec<String>,
    pub input: Vec<u8>,
}

/// The model of a `ClipboardCommand`.
#[verifier::ext_equal]
pub struct CommandView {
    pub program: Seq<char>,
    pub args: Seq<Seq<char>>,
    pub input: Seq<u8>,
}

impl View for ClipboardCommand {
    type V = CommandView;

    open spec fn view(&self) -> CommandView {
        CommandView { program: self.program@, args: text::texts(self.args@), input: self.input@ }
    }
}

/// A character in UTF-16, with the lower byte of each unit first: one unit, or beyond the basic
/// plane a high and a low surrogate.
pub open spec fn utf16_char(c: char) -> Seq<u8> {
    let code = c as int;
    if code < 0x10000 {
        unit_bytes(code)
    } else {
        unit_bytes(0xd800 + (code - 0x10000) / 0x400) + unit_bytes(
            0xdc00 + (code - 0x10000) % 0x400,
        )
    }
}

/// The two bytes of a UTF-16 unit, the lower first.
pub open spec fn unit_bytes(unit: int) -> Seq<u8> {
    seq![(unit % 0x100) as u8, (unit / 0x100) as u8]
}

/// A text in UTF-16, with the lower byte of each unit first.
pub open spec fn utf16_text(s: Seq<char>) -> Seq<u8>
    decreases s.len(),
{
    if s.len() == 0 {
        seq![]
    } else {
        utf16_text(s.drop_last()) + utf16_char(s.last())
    }
}

/// The code point of a character.
fn code_of(c: char) -> (code: u32)
    ensures
        code == c as int,
        code < 0x110000,
{
    c as u32
}

/// Appends a UTF-16 unit.
fn push_unit(bytes: &mut Vec<u8>, unit: u32)
    requires
        unit < 0x10000,
    ensures
        final(bytes)@ == old(bytes)@ + unit_bytes(unit as int),
{
    bytes.push((unit % 0x100) as u8);
    bytes.push((unit / 0x100) as u8);
    assert(bytes@ =~= old(bytes)@ + unit_bytes(unit as int));
}

/// Encodes a text in UTF-16, with the lower byte of each unit first and behind a byte order mark.
pub fn utf16_with_mark(value: &str) -> (bytes: Vec<u8>)
    ensures
        bytes@ == seq![0xffu8, 0xfeu8] + utf16_text(value@),
{
    let chars = text::chars_of(value);
    let ghost mark = seq![0xffu8, 0xfeu8];
    let mut bytes: Vec<u8> = vec![0xff, 0xfe];
    let mut i: usize = 0;
    assert(bytes@ =~= mark + utf16_text(chars@.take(0)));
    while i < chars.len()
        invariant
            i <= chars@.len(),
            bytes@ == mark + utf16_text(chars@.take(i as int)),
        decreases chars@.len() - i,
    {
        let ghost before = bytes@;
        let code = code_of(chars[i]);
        if code < 0x10000 {
            push_unit(&mut bytes, code);
        } else {
            push_unit(&mut bytes, 0xd800 + (code - 0x10000) / 0x400);
            push_unit(&mut bytes, 0xdc00 + (code - 0x10000) % 0x400);
        }
        assert(bytes@ =~= before + utf16_char(chars@[i as int]));
        assert(chars@.take(i + 1).drop_last() =~= chars@.take(i as int));
        i += 1;
        assert(bytes@ =~= mark + utf16_text(chars@.take(i as int)));
    }
    assert(chars@.take(chars@.len() as int) =~= chars@);
    bytes
}

/// The script that has PowerShell copy what it reads.
pub open spec fn powershell_script() -> Seq<char> {
    "[Console]::InputEncoding = [System.Text.Encoding]::UTF8; $text = [Console]::In.ReadToEnd(); Set-Clipboard -Value $text"@
}

/// What a command is given: its arguments, and the text in UTF-8, except that `clip.exe` reads
/// UTF-16 behind a byte order mark. Nothing for a command that does not reach a clipboard.
pub open spec fn method_command(method: Seq<char>, value: Seq<char>) -> Option<CommandView> {
    let utf8 = vstd::utf8::encode_utf8(value);
    if method == "powershell.exe"@ {
        Some(
            CommandView {
                program: method,
                args: seq!["-NoProfile"@, "-NonInteractive"@, "-Command"@, powershell_script()],
                input: utf8,
            },
        )
    } else if method == "clip.exe"@ {
        Some(
            CommandView {
                program: method,
                args: seq![],
                input: seq![0xffu8, 0xfeu8] + utf16_text(value),
            },
        )
    } else if method == "wl-copy"@ || method == "pbcopy"@ || method == "termux-clipboard-set"@ {
        Some(CommandView { program: method, args: seq![], input: utf8 })
    } else if method == "xclip"@ {
        Some(
            CommandView { program: method, args: seq!["-selection"@, "clipboard"@], input: utf8 },
        )
    } else if method == "xsel"@ {
        Some(CommandView { program: method, args: seq!["--clipboard"@, "--input"@], input: utf8 })
    } else {
        None
    }
}

/// The bytes of a string.
fn bytes_of(value: &str) -> (bytes: Vec<u8>)
    ensures
        bytes@ == vstd::utf8::encode_utf8(value@),
{
    vstd::slice::slice_to_vec(value.as_bytes())
}

/// Whether two strings are the same.
fn same(a: &str, b: &str) -> (result: bool)
    ensures
        result == (a@ == b@),
{
    a.to_string() == b.to_string()
}

/// Says what a command is given to copy a text, or that it does not reach a clipboard.
pub fn try_method(method: &str, value: &str) -> (command: Result<ClipboardCommand, String>)
    ensures
        match command {
            Ok(command) => method_command(method@, value@) == Some(command@),
            Err(error) => method_command(method@, value@) is None && error@
                == "unknown clipboard method: "@ + method@,
        },
{
    let mut args: Vec<String> = Vec::new();
    let mut input = bytes_of(value);
    if same(method, "powershell.exe") {
        args.push("-NoProfile".to_string());
        args.push("-NonInteractive".to_string());
        args.push("-Command".to_string());
        args.push(
            "[Console]::InputEncoding = [System.Text.Encoding]::UTF8; $text = [Console]::In.ReadToEnd(); Set-Clipboard -Value $text".to_string(),
        );
    } else if same(method, "clip.exe") {
        input = utf16_with_mark(value);
    } else if same(method, "wl-copy") || same(method, "pbcopy") || same(
        method,
        "termux-clipboard-set",
    ) {
        // These take no arguments.
    } else if same(method, "xclip") {
        args.push("-selection".to_string());
        args.push("clipboard".to_string());
    } else if same(method, "xsel") {
        args.push("--clipboard".to_string());
        args.push("--input".to_string());
    } else {
        let mut error = "unknown clipboard method: ".to_string();
        error.push_str(method);
        return Err(error);
    }
    let command = ClipboardCommand { program: method.to_string(), args, input };
    assert(command@.args =~= method_command(method@, value@)->0.args);
    Ok(command)
}

/// What came of a command: fine where it succeeded, else what it wrote about its failure.
pub fn pipe_to(success: bool, stderr: &[u8]) -> (result: Result<(), String>)
    ensures
        match result {
            Ok(_) => success,
            Err(error) => !success && error@ == text::trim(git_diff::lossy_text(stderr@)),
        },
{
    if success {
        return Ok(());
    }
    let written = git_diff::decode_lossy(stderr);
    let chars = text::chars_of(written.as_str());
    Err(text::string_of(text::trim_chars(chars.as_slice())))
}

/// The digits of base64.
pub open spec fn base64_alphabet() -> Seq<char> {
    "ABCDEFGHIJKLMNOPQRSTUVWXYZabcdefghijklmnopqrstuvwxyz0123456789+/"@
}

/// Byte `i`, or zero behind the end.
pub open spec fn byte_or_zero(bytes: Seq<u8>, i: int) -> int {
    if i < bytes.len() {
        bytes[i] as int
    } else {
        0
    }
}

/// How long the base64 text of `len` bytes is.
pub open spec fn base64_len(len: nat) -> nat {
    (len + 2) / 3 * 4
}

/// Character `i` of the base64 text: each group of three bytes, filled up with zeros, is a number
/// of four digits; those to which no byte contributes are padding.
pub open spec fn base64_char(bytes: Seq<u8>, i: int) -> char {
    let start = i / 4 * 3;
    let group = byte_or_zero(bytes, start) * 0x10000 + byte_or_zero(bytes, start + 1) * 0x100
        + byte_or_zero(bytes, start + 2);
    if start + i % 4 > bytes.len() {
        '='
    } else if i % 4 == 0 {
        base64_alphabet()[group / 0x40000]
    } else if i % 4 == 1 {
        base64_alphabet()[group / 0x1000 % 0x40]
    } else if i % 4 == 2 {
        base64_alphabet()[group / 0x40 % 0x40]
    } else {
        base64_alphabet()[group % 0x40]
    }
}

/// Bytes in base64, with padding.
pub open spec fn base64_text(bytes: Seq<u8>) -> Seq<char> {
    Seq::new(base64_len(bytes.len()), |i: int| base64_char(bytes, i))
}

/// `Engine::encode` of the crate `base64`, with its engine `STANDARD`, gives the bytes in base64,
/// with the standard alphabet and with padding. The text has to fit in memory: the call panics
/// where it would be longer than an allocation can be.
#[verifier::external_body]
fn encode_base64(bytes: &[u8]) -> (encoded: String)
    requires
        base64_len(bytes@.len()) <= isize::MAX,
    ensures
        encoded@ == base64_text(bytes@),
{
    base64::Engine::encode(&base64::engine::general_purpose::STANDARD, bytes)
}

/// A text with each escape character doubled.
pub open spec fn double_escapes(s: Seq<char>) -> Seq<char>
    decreases s.len(),
{
    if s.len() == 0 {
        seq![]
    } else if s.last() == '\x1b' {
        double_escapes(s.drop_last()).push('\x1b').push('\x1b')
    } else {
        double_escapes(s.drop_last()).push(s.last())
    }
}

/// The sequence by which a terminal is asked to copy a text.
pub open spec fn osc52(value: Seq<char>) -> Seq<char> {
    "\x1b]52;c;"@ + base64_text(vstd::utf8::encode_utf8(value)) + "\x07"@
}

/// A sequence as tmux hands it on to its terminal.
pub open spec fn tmux_passthrough(sequence: Seq<char>) -> Seq<char> {
    "\x1bPtmux;"@ + double_escapes(sequence) + "\x1b\\"@
}

/// The sequence that is printed to copy a text.
pub open spec fn osc52_sequence(value: Seq<char>, tmux: bool) -> Seq<char> {
    if tmux {
        tmux_passthrough(osc52(value))
    } else {
        osc52(value)
    }
}

/// The text is not too long for the sequence that copies it.
pub open spec fn fits_osc52(value: Seq<char>) -> bool {
    base64_len(vstd::utf8::encode_utf8(value).len()) <= isize::MAX
}

/// Writes the sequence that is printed to copy a text.
pub fn copy_osc52(value: &str, tmux: bool) -> (sequence: String)
    requires
        fits_osc52(value@),
    ensures
        sequence@ == osc52_sequence(value@, tmux),
{
    let encoded = encode_base64(value.as_bytes());
    let mut sequence = "\x1b]52;c;".to_string();
    sequence.push_str(encoded.as_str());
    sequence.push_str("\x07");
    if !tmux {
        return sequence;
    }
    let chars = text::chars_of(sequence.as_str());
    let mut wrapped = "\x1bPtmux;".to_string();
    let ghost open = wrapped@;
    let mut i: usize = 0;
    assert(wrapped@ =~= open + double_escapes(chars@.take(0)));
    while i < chars.len()
        invariant
            i <= chars@.len(),
            wrapped@ == open + double_escapes(chars@.take(i as int)),
        decreases chars@.len() - i,
    {
        let ghost next = chars@.take(i + 1);
        assert(next.drop_last() =~= chars@.take(i as int));
        assert(next.last() == chars@[i as int]);
        wrapped.push(chars[i]);
        if chars[i] == '\x1b' {
            wrapped.push(chars[i]);
        }
        assert(wrapped@ =~= open + double_escapes(next));
        i += 1;
    }
    assert(chars@.take(chars@.len() as int) =~= chars@);
    wrapped.push_str("\x1b\\");
    wrapped
}

/// What copying a text needs to have done next.
#[derive(Debug, PartialEq, Eq)]
pub enum CopyRequest {
    /// Run a command.
    Run(ClipboardCommand),
    /// Print a sequence to the terminal.
    Print(String),
    /// Write a text to a file in the directory for temporary files.
    Write { file_name: String, text: String },
}

/// The model of a `CopyRequest`.
#[verifier::ext_equal]
pub enum CopyRequestView {
    Run(CommandView),
    Print(Seq<char>),
    Write { file_name: Seq<char>, text: Seq<char> },
}

impl View for CopyRequest {
    type V = CopyRequestView;

    open spec fn view(&self) -> CopyRequestView {
        match self {
            CopyRequest::Run(command) => CopyRequestView::Run(command@),
            CopyRequest::Print(sequence) => CopyRequestView::Print(sequence@),
            CopyRequest::Write { file_name, text } => CopyRequestView::Write {
                file_name: file_name@,
                text: text@,
            },
        }
    }
}

/// What came of a request. A failure comes with its message, a file that was written with its
/// path.
#[derive(Debug, PartialEq, Eq)]
pub enum CopyReply {
    Ran(Result<(), String>),
    Printed(Result<(), String>),
    Written(Result<String, String>),
}

/// The model of a `CopyReply`: of a command and of the terminal, whether it succeeded.
#[verifier::ext_equal]
pub enum CopyReplyView {
    Ran(bool),
    Printed(bool),
    Written(Result<Seq<char>, Seq<char>>),
}

impl View for CopyReply {
    type V = CopyReplyView;

    open spec fn view(&self) -> CopyReplyView {
        match self {
            CopyReply::Ran(outcome) => CopyReplyView::Ran(outcome is Ok),
            CopyReply::Printed(outcome) => CopyReplyView::Printed(outcome is Ok),
            CopyReply::Written(Ok(path)) => CopyReplyView::Written(Ok(path@)),
            CopyReply::Written(Err(error)) => CopyReplyView::Written(Err(error@)),
        }
    }
}

/// The reply is of the kind that the request asks for.
pub open spec fn answers(reply: CopyReplyView, request: CopyRequestView) -> bool {
    match request {
        CopyRequestView::Run(_) => reply is Ran,
        CopyRequestView::Print(_) => reply is Printed,
        CopyRequestView::Write { .. } => reply is Written,
    }
}

/// How far copying has come.
enum CopyStage {
    /// The command `methods[next]` is to run.
    Command,
    /// The terminal is to be asked.
    Terminal,
    /// The text is to be written to a file.
    File,
    /// Nothing: this is the result.
    Done(ClipboardResult),
}

/// The model of how far copying has come.
#[verifier::ext_equal]
pub enum CopyStageView {
    Command,
    Terminal,
    File,
    Done(ClipboardResultView),
}

/// The copying of a text.
pub struct ClipboardCopy {
    text: String,
    allow_osc52: bool,
    tmux: bool,
    methods: Vec<String>,
    next: usize,
    stage: CopyStage,
}

/// The model of a `ClipboardCopy`: of the commands, those that were not tried.
#[verifier::ext_equal]
pub struct ClipboardCopyView {
    pub text: Seq<char>,
    pub allow_osc52: bool,
    pub tmux: bool,
    pub left: Seq<Seq<char>>,
    pub stage: CopyStageView,
}

impl View for ClipboardCopy {
    type V = ClipboardCopyView;

    closed spec fn view(&self) -> ClipboardCopyView {
        ClipboardCopyView {
            text: self.text@,
            allow_osc52: self.allow_osc52,
            tmux: self.tmux,
            left: text::texts(self.methods@).skip(self.next as int),
            stage: match self.stage {
                CopyStage::Command => CopyStageView::Command,
                CopyStage::Terminal => CopyStageView::Terminal,
                CopyStage::File => CopyStageView::File,
                CopyStage::Done(result) => CopyStageView::Done(result@),
            },
        }
    }
}

/// The name of the file that a text is written to where it cannot be copied.
pub open spec fn fallback_name() -> Seq<char> {
    "diffmark-last-comment.txt"@
}

/// The result where a command copied the text.
pub open spec fn copied_by(method: Seq<char>) -> ClipboardResultView {
    ClipboardResultView { ok: true, message: "copied to clipboard via "@ + method }
}

/// The result where the terminal was asked.
pub open spec fn sent_to_terminal() -> ClipboardResultView {
    ClipboardResultView {
        ok: true,
        message: "sent OSC52 clipboard sequence; terminal support may vary"@,
    }
}

/// The result where the text could not be copied, by what came of writing it to a file.
pub open spec fn not_copied(written: Result<Seq<char>, Seq<char>>) -> ClipboardResultView {
    ClipboardResultView {
        ok: false,
        message: match written {
            Ok(path) => "clipboard unavailable; payload written to "@ + path,
            Err(error) => "clipboard unavailable; failed to write fallback: "@ + error,
        },
    }
}

/// The stage with the commands `left` to try.
pub open spec fn next_way(left: Seq<Seq<char>>, allow_osc52: bool) -> CopyStageView {
    if left.len() > 0 {
        CopyStageView::Command
    } else if allow_osc52 {
        CopyStageView::Terminal
    } else {
        CopyStageView::File
    }
}

impl ClipboardCopyView {
    /// What is to be done next; nothing where copying is done.
    pub open spec fn request(self) -> Option<CopyRequestView> {
        match self.stage {
            CopyStageView::Command => Some(
                CopyRequestView::Run(method_command(self.left[0], self.text)->0),
            ),
            CopyStageView::Terminal => Some(
                CopyRequestView::Print(osc52_sequence(self.text, self.tmux)),
            ),
            CopyStageView::File => Some(
                CopyRequestView::Write { file_name: fallback_name(), text: self.text },
            ),
            CopyStageView::Done(_) => None,
        }
    }

    /// The copying after the reply to its request.
    pub open spec fn after(self, reply: CopyReplyView) -> ClipboardCopyView {
        match (self.stage, reply) {
            (CopyStageView::Command, CopyReplyView::Ran(true)) => ClipboardCopyView {
                stage: CopyStageView::Done(copied_by(self.left[0])),
                ..self
            },
            (CopyStageView::Command, CopyReplyView::Ran(false)) => ClipboardCopyView {
                left: self.left.drop_first(),
                stage: next_way(self.left.drop_first(), self.allow_osc52),
                ..self
            },
            (CopyStageView::Terminal, CopyReplyView::Printed(true)) => ClipboardCopyView {
                stage: CopyStageView::Done(sent_to_terminal()),
                ..self
            },
            (CopyStageView::Terminal, CopyReplyView::Printed(false)) => ClipboardCopyView {
                stage: CopyStageView::File,
                ..self
            },
            (CopyStageView::File, CopyReplyView::Written(written)) => ClipboardCopyView {
                stage: CopyStageView::Done(not_copied(written)),
                ..self
            },
            _ => self,
        }
    }
}

/// The start of copying a text.
pub open spec fn copy_start(
    value: Seq<char>,
    allow_osc52: bool,
    methods: Seq<Seq<char>>,
    tmux: bool,
) -> ClipboardCopyView {
    ClipboardCopyView {
        text: value,
        allow_osc52,
        tmux,
        left: methods,
        stage: next_way(methods, allow_osc52),
    }
}

/// The commands to try reach a clipboard.
proof fn lemma_candidates(wsl: bool, installed: Seq<Seq<char>>, value: Seq<char>)
    ensures
        forall|i: int|
            0 <= i < candidates(wsl, installed).len() ==> method_command(
                #[trigger] candidates(wsl, installed)[i],
                value,
            ) is Some,
{
    let pred = |method: Seq<char>| installed.contains(method);
    let all = method_order(wsl);
    assert forall|i: int| 0 <= i < candidates(wsl, installed).len() implies method_command(
        #[trigger] candidates(wsl, installed)[i],
        value,
    ) is Some by {
        let method = candidates(wsl, installed)[i];
        assert(candidates(wsl, installed).contains(method));
        all.lemma_filter_contains_rev(pred, method);
    }
}

/// Starts to copy a text.
pub fn copy_to_clipboard(value: &str, allow_osc52: bool, host: &ClipboardHost) -> (copy:
    ClipboardCopy)
    requires
        allow_osc52 ==> fits_osc52(value@),
    ensures
        copy@ == copy_start(
            value@,
            allow_osc52,
            candidates(host.wsl, text::texts(host.installed@)),
            host.tmux,
        ),
        copy.wf(),
{
    let methods = candidate_methods(host);
    proof {
        lemma_candidates(host.wsl, text::texts(host.installed@), value@);
    }
    let stage = first_way(&methods, 0, allow_osc52);
    assert(text::texts(methods@).skip(0) =~= text::texts(methods@));
    ClipboardCopy {
        text: value.to_string(),
        allow_osc52,
        tmux: host.tmux,
        methods,
        next: 0,
        stage,
    }
}

/// The first way that is left.
fn first_way(methods: &Vec<String>, next: usize, allow_osc52: bool) -> (stage: CopyStage)
    requires
        next <= methods@.len(),
    ensures
        next < methods@.len() ==> stage is Command,
        next == methods@.len() && allow_osc52 ==> stage is Terminal,
        next == methods@.len() && !allow_osc52 ==> stage is File,
{
    if next < methods.len() {
        CopyStage::Command
    } else if allow_osc52 {
        CopyStage::Terminal
    } else {
        CopyStage::File
    }
}

impl ClipboardCopy {
    /// The copying is in a stage that can be reached: the commands reach a clipboard, there is one
    /// to run where one is to run, and the terminal is asked only of what it can take.
    pub closed spec fn wf(self) -> bool {
        &&& self.next <= self.methods@.len()
        &&& self.stage is Command ==> self.next < self.methods@.len()
        &&& self.stage is Terminal ==> self.allow_osc52
        &&& self.allow_osc52 ==> fits_osc52(self.text@)
        &&& forall|i: int|
            0 <= i < self.methods@.len() ==> method_command(
                (#[trigger] text::texts(self.methods@)[i]),
                self.text@,
            ) is Some
    }

    /// What is to be done next; nothing where copying is done.
    pub fn request(&self) -> (request: Option<CopyRequest>)
        requires
            self.wf(),
        ensures
            match request {
                Some(request) => self@.request() == Some(request@),
                None => self@.request() is None,
            },
    {
        match &self.stage {
            CopyStage::Command => {
                match try_method(self.methods[self.next].as_str(), self.text.as_str()) {
                    Ok(command) => Some(CopyRequest::Run(command)),
                    Err(_) => None,
                }
            },
            CopyStage::Terminal => Some(
                CopyRequest::Print(copy_osc52(self.text.as_str(), self.tmux)),
            ),
            CopyStage::File => Some(
                CopyRequest::Write {
                    file_name: "diffmark-last-comment.txt".to_string(),
                    text: self.text.clone(),
                },
            ),
            CopyStage::Done(_) => None,
        }
    }

    /// Goes on with the reply to the request.
    pub fn supply(self, reply: CopyReply) -> (copy: ClipboardCopy)
        requires
            self.wf(),
            self@.request() matches Some(request) && answers(reply@, request),
        ensures
            copy@ == self@.after(reply@),
            copy.wf(),
    {
        let mut copy = self;
        match reply {
            CopyReply::Ran(Ok(_)) => {
                let mut message = "copied to clipboard via ".to_string();
                message.push_str(copy.methods[copy.next].as_str());
                copy.stage = CopyStage::Done(ClipboardResult { ok: true, message });
            },
            CopyReply::Ran(Err(_)) => {
                assert(copy.next < copy.methods.len());
                copy.next = copy.next + 1;
                copy.stage = first_way(&copy.methods, copy.next, copy.allow_osc52);
                assert(copy@.left =~= self@.left.drop_first());
            },
            CopyReply::Printed(Ok(_)) => {
                let message = "sent OSC52 clipboard sequence; terminal support may vary".to_string();
                copy.stage = CopyStage::Done(ClipboardResult { ok: true, message });
            },
            CopyReply::Printed(Err(_)) => {
                copy.stage = CopyStage::File;
            },
            CopyReply::Written(Ok(path)) => {
                let mut message = "clipboard unavailable; payload written to ".to_string();
                message.push_str(path.as_str());
                copy.stage = CopyStage::Done(ClipboardResult { ok: false, message });
            },
            CopyReply::Written(Err(error)) => {
                let mut message = "clipboard unavailable; failed to write fallback: ".to_string();
                message.push_str(error.as_str());
                copy.stage = CopyStage::Done(ClipboardResult { ok: false, message });
            },
        }
        copy
    }

    /// The result, where copying is done.
    pub fn result(self) -> (result: Option<ClipboardResult>)
        ensures
            match result {
                Some(result) => self@.stage == CopyStageView::Done(result@),
                None => !(self@.stage is Done),
            },
    {
        match self.stage {
            CopyStage::Done(result) => Some(result),
            _ => None,
        }
    }
}

/// What copying a text comes to where `answer` is the answer to each request: the first command
/// that succeeds copies it; where none does, the terminal if it may be asked; and where that fails
/// too, the text goes to a file.
pub open spec fn copied(
    value: Seq<char>,
    allow_osc52: bool,
    methods: Seq<Seq<char>>,
    tmux: bool,
    answer: spec_fn(CopyRequestView) -> CopyReplyView,
) -> ClipboardResultView
    decreases methods.len(),
{
    if methods.len() > 0 {
        if answer(CopyRequestView::Run(method_command(methods[0], value)->0)) == CopyReplyView::Ran(
            true,
        ) {
            copied_by(methods[0])
        } else {
            copied(value, allow_osc52, methods.drop_first(), tmux, answer)
        }
    } else if allow_osc52 && answer(CopyRequestView::Print(osc52_sequence(value, tmux)))
        == CopyReplyView::Printed(true) {
        sent_to_terminal()
    } else {
        match answer(CopyRequestView::Write { file_name: fallback_name(), text: value }) {
            CopyReplyView::Written(written) => not_copied(written),
            _ => arbitrary(),
        }
    }
}

/// Each answer is of the kind that its request asks for.
pub open spec fn answers_all(answer: spec_fn(CopyRequestView) -> CopyReplyView) -> bool {
    forall|request: CopyRequestView| answers(#[trigger] answer(request), request)
}

impl ClipboardCopyView {
    /// The copying after `count` replies.
    pub open spec fn run(
        self,
        answer: spec_fn(CopyRequestView) -> CopyReplyView,
        count: nat,
    ) -> ClipboardCopyView
        decreases count,
    {
        match self.request() {
            Some(request) => if count == 0 {
                self
            } else {
                self.after(answer(request)).run(answer, (count - 1) as nat)
            },
            None => self,
        }
    }
}

/// Copying a text ends, after at most one reply for each command and two more, with the first way
/// that works.
pub proof fn law_copying_takes_first_way(
    value: Seq<char>,
    allow_osc52: bool,
    methods: Seq<Seq<char>>,
    tmux: bool,
    answer: spec_fn(CopyRequestView) -> CopyReplyView,
    count: nat,
)
    requires
        answers_all(answer),
        methods.len() + 2 <= count,
    ensures
        copy_start(value, allow_osc52, methods, tmux).run(answer, count).stage
            == CopyStageView::Done(copied(value, allow_osc52, methods, tmux, answer)),
    decreases methods.len(),
{
    reveal_with_fuel(ClipboardCopyView::run, 4);
    let start = copy_start(value, allow_osc52, methods, tmux);
    let request = start.request()->0;
    let reply = answer(request);
    assert(answers(reply, request));
    if methods.len() > 0 {
        if reply == CopyReplyView::Ran(false) {
            let rest = methods.drop_first();
            law_copying_takes_first_way(
                value,
                allow_osc52,
                rest,
                tmux,
                answer,
                (count - 1) as nat,
            );
            assert(start.after(reply) =~= copy_start(value, allow_osc52, rest, tmux));
        }
    } else if allow_osc52 {
        if reply == CopyReplyView::Printed(false) {
            let write = start.after(reply).request()->0;
            assert(answers(answer(write), write));
        }
    }
}

/// A text with each two escape characters in a row made one.
pub open spec fn undouble_escapes(s: Seq<char>) -> Seq<char>
    decreases s.len(),
{
    if s.len() == 0 {
        seq![]
    } else if s.len() > 1 && s.last() == '\x1b' && s[s.len() - 2] == '\x1b' {
        undouble_escapes(s.drop_last().drop_last()).push('\x1b')
    } else {
        undouble_escapes(s.drop_last()).push(s.last())
    }
}

/// Doubling the escape characters loses nothing: undoing it gives the sequence back.
pub proof fn law_tmux_passthrough_keeps_sequence(sequence: Seq<char>)
    ensures
        undouble_escapes(double_escapes(sequence)) == sequence,
    decreases sequence.len(),
{
    if sequence.len() > 0 {
        let rest = sequence.drop_last();
        law_tmux_passthrough_keeps_sequence(rest);
        let doubled = double_escapes(sequence);
        if sequence.last() == '\x1b' {
            assert(doubled.drop_last().drop_last() =~= double_escapes(rest));
        } else {
            assert(doubled.drop_last() =~= double_escapes(rest));
        }
        assert(undouble_escapes(doubled) =~= sequence);
    }
}

} // verus!
