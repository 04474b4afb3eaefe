//! What holds of every copying of a text: what the commands and the terminal are given is the whole
//! text, and the first way that works is taken.

use crate::clipboard;
use crate::clipboard::{
    ClipboardCopyView, ClipboardResultView, CopyReplyView, CopyRequestView, CopyStageView,
};
use crate::text;
use vstd::prelude::*;

verus! {

/// Unit `i` of a text in UTF-16, with the lower byte of each unit first.
pub open spec fn unit_at(bytes: Seq<u8>, i: int) -> int {
    bytes[2 * i] + 0x100 * bytes[2 * i + 1]
}

/// The text that bytes in UTF-16 stand for, with the lower byte of each unit first: a high surrogate
/// and the unit behind it are one character, any other unit is one.
pub open spec fn decode_utf16(bytes: Seq<u8>) -> Seq<char>
    decreases bytes.len(),
{
    if bytes.len() < 2 {
        seq![]
    } else {
        let unit = unit_at(bytes, 0);
        if 0xd800 <= unit < 0xdc00 && bytes.len() >= 4 {
            let code = 0x10000 + (unit - 0xd800) * 0x400 + (unit_at(bytes, 1) - 0xdc00);
            seq![code as char] + decode_utf16(bytes.skip(4))
        } else {
            seq![unit as char] + decode_utf16(bytes.skip(2))
        }
    }
}

/// A character in UTF-16 is read back.
#[verifier::spinoff_prover]
proof fn lemma_utf16_char(c: char, rest: Seq<u8>)
    ensures
        decode_utf16(clipboard::utf16_char(c) + rest) == seq![c] + decode_utf16(rest),
{
    let code = c as int;
    let head = clipboard::utf16_char(c);
    let all = head + rest;
    assert(c as u32 as int == code);
    assert(0 <= code < 0x110000 && !(0xd800 <= code < 0xe000));
    if code < 0x10000 {
        assert(unit_at(all, 0) == code);
        assert(all.skip(2) =~= rest);
        assert(unit_at(all, 0) as char == c);
    } else {
        let high = 0xd800 + (code - 0x10000) / 0x400;
        let low = 0xdc00 + (code - 0x10000) % 0x400;
        assert(unit_at(all, 0) == high);
        assert(unit_at(all, 1) == low);
        assert(all.skip(4) =~= rest);
        assert(0x10000 + (high - 0xd800) * 0x400 + (low - 0xdc00) == code);
        assert(code as char == c);
    }
}

/// The first character in UTF-16 comes first.
proof fn lemma_utf16_first(c: char, rest: Seq<char>)
    ensures
        clipboard::utf16_text(seq![c] + rest) == clipboard::utf16_char(c) + clipboard::utf16_text(
            rest,
        ),
    decreases rest.len(),
{
    let all = seq![c] + rest;
    if rest.len() == 0 {
        assert(all.drop_last() =~= rest);
        assert(all.last() == c);
        assert(clipboard::utf16_text(all) =~= clipboard::utf16_char(c) + clipboard::utf16_text(rest));
    } else {
        lemma_utf16_first(c, rest.drop_last());
        assert(all.drop_last() =~= seq![c] + rest.drop_last());
        assert(all.last() == rest.last());
        assert(clipboard::utf16_text(all) =~= clipboard::utf16_char(c) + clipboard::utf16_text(rest));
    }
}

/// A text that is written in UTF-16 is read back.
pub proof fn law_utf16_is_read_back(value: Seq<char>)
    ensures
        decode_utf16(clipboard::utf16_text(value)) == value,
    decreases value.len(),
{
    if value.len() > 0 {
        let rest = value.drop_first();
        lemma_utf16_first(value[0], rest);
        lemma_utf16_char(value[0], clipboard::utf16_text(rest));
        law_utf16_is_read_back(rest);
        assert(seq![value[0]] + rest =~= value);
    }
}

/// The names of the commands that reach a clipboard.
pub open spec fn is_known(method: Seq<char>) -> bool {
    ||| method == "powershell.exe"@
    ||| method == "clip.exe"@
    ||| method == "wl-copy"@
    ||| method == "xclip"@
    ||| method == "xsel"@
    ||| method == "pbcopy"@
    ||| method == "termux-clipboard-set"@
}

/// What a command is given to read holds the whole text: in UTF-16 behind a byte order mark for
/// `clip.exe`, in UTF-8 for any other.
pub open spec fn holds_text(method: Seq<char>, input: Seq<u8>, value: Seq<char>) -> bool {
    if method == "clip.exe"@ {
        input.len() >= 2 && input[0] == 0xff && input[1] == 0xfe && decode_utf16(input.skip(2))
            == value
    } else {
        vstd::utf8::valid_utf8(input) && vstd::utf8::decode_utf8(input) == value
    }
}

/// No two of the names of commands are the same.
proof fn lemma_names_differ()
    ensures
        "powershell.exe"@ != "clip.exe"@,
        "powershell.exe"@ != "wl-copy"@,
        "powershell.exe"@ != "xclip"@,
        "powershell.exe"@ != "xsel"@,
        "powershell.exe"@ != "pbcopy"@,
        "powershell.exe"@ != "termux-clipboard-set"@,
        "clip.exe"@ != "wl-copy"@,
        "clip.exe"@ != "xclip"@,
        "clip.exe"@ != "xsel"@,
        "clip.exe"@ != "pbcopy"@,
        "clip.exe"@ != "termux-clipboard-set"@,
        "wl-copy"@ != "xclip"@,
        "wl-copy"@ != "xsel"@,
        "wl-copy"@ != "pbcopy"@,
        "wl-copy"@ != "termux-clipboard-set"@,
        "xclip"@ != "xsel"@,
        "xclip"@ != "pbcopy"@,
        "xclip"@ != "termux-clipboard-set"@,
        "xsel"@ != "pbcopy"@,
        "xsel"@ != "termux-clipboard-set"@,
        "pbcopy"@ != "termux-clipboard-set"@,
{
    reveal_strlit("powershell.exe");
    reveal_strlit("clip.exe");
    reveal_strlit("wl-copy");
    reveal_strlit("xclip");
    reveal_strlit("xsel");
    reveal_strlit("pbcopy");
    reveal_strlit("termux-clipboard-set");
    assert("wl-copy"@.len() == 7 && "xclip"@.len() == 5 && "xsel"@.len() == 4);
    assert("pbcopy"@.len() == 6 && "termux-clipboard-set"@.len() == 20);
    assert("clip.exe"@.len() == 8 && "powershell.exe"@.len() == 14);
}

/// Every known command, and no other, is run to copy a text; it is run under its own name, what it
/// is given to read holds the whole text, and its arguments have it write what it reads to the
/// clipboard: `xclip` and `xsel` have to be told that it is the clipboard, PowerShell gets a script.
#[verifier::spinoff_prover]
pub proof fn law_command_is_given_the_text(method: Seq<char>, value: Seq<char>)
    ensures
        clipboard::method_command(method, value) is Some <==> is_known(method),
        clipboard::method_command(method, value) matches Some(command) ==> {
            &&& command.program == method
            &&& holds_text(method, command.input, value)
            &&& method == "xclip"@ ==> command.args == seq!["-selection"@, "clipboard"@]
            &&& method == "xsel"@ ==> command.args == seq!["--clipboard"@, "--input"@]
            &&& method == "powershell.exe"@ ==> command.args.len() == 4 && command.args.take(3)
                == seq!["-NoProfile"@, "-NonInteractive"@, "-Command"@] && command.args[3]
                == "[Console]::InputEncoding = [System.Text.Encoding]::UTF8; $text = [Console]::In.ReadToEnd(); Set-Clipboard -Value $text"@
            &&& method != "xclip"@ && method != "xsel"@ && method != "powershell.exe"@
                ==> command.args.len() == 0
        },
{
    lemma_names_differ();
    vstd::utf8::encode_utf8_valid_utf8(value);
    vstd::utf8::encode_utf8_decode_utf8(value);
    law_utf16_is_read_back(value);
    if let Some(command) = clipboard::method_command(method, value) {
        if method == "clip.exe"@ {
            assert(command.input.skip(2) =~= clipboard::utf16_text(value));
        }
        if method == "powershell.exe"@ {
            assert(command.args.take(3) =~= seq!["-NoProfile"@, "-NonInteractive"@, "-Command"@]);
        }
    }
}

/// How early a known command is tried. The Windows commands come first under the Windows Subsystem
/// for Linux and last elsewhere.
pub open spec fn preference(wsl: bool, method: Seq<char>) -> int {
    if method == "powershell.exe"@ {
        if wsl {
            0
        } else {
            8
        }
    } else if method == "clip.exe"@ {
        if wsl {
            1
        } else {
            9
        }
    } else if method == "wl-copy"@ {
        2
    } else if method == "xclip"@ {
        3
    } else if method == "xsel"@ {
        4
    } else if method == "pbcopy"@ {
        5
    } else {
        6
    }
}

/// A filter keeps commands in the order of preference.
proof fn lemma_filter_ordered(
    wsl: bool,
    all: Seq<Seq<char>>,
    pred: spec_fn(Seq<char>) -> bool,
)
    requires
        forall|i: int, j: int|
            0 <= i < j < all.len() ==> preference(wsl, #[trigger] all[i]) < preference(
                wsl,
                #[trigger] all[j],
            ),
    ensures
        forall|i: int, j: int|
            0 <= i < j < all.filter(pred).len() ==> preference(wsl, #[trigger] all.filter(pred)[i])
                < preference(wsl, #[trigger] all.filter(pred)[j]),
    decreases all.len(),
{
    reveal(Seq::filter);
    if all.len() > 0 {
        let init = all.drop_last();
        let before = init.filter(pred);
        let kept = all.filter(pred);
        lemma_filter_ordered(wsl, init, pred);
        assert forall|i: int, j: int| 0 <= i < j < kept.len() implies preference(
            wsl,
            #[trigger] kept[i],
        ) < preference(wsl, #[trigger] kept[j]) by {
            if j == before.len() {
                assert(before.contains(before[i]));
                init.lemma_filter_contains_rev(pred, before[i]);
                let k = choose|k: int| 0 <= k < init.len() && init[k] == before[i];
                assert(preference(wsl, all[k]) < preference(wsl, all[all.len() - 1]));
            } else {
                assert(preference(wsl, before[i]) < preference(wsl, before[j]));
            }
        }
    }
}

/// The commands that are tried are the known ones that are installed, each once, in the order of
/// preference.
#[verifier::spinoff_prover]
pub proof fn law_installed_commands_are_tried(wsl: bool, installed: Seq<Seq<char>>, method: Seq<char>)
    ensures
        clipboard::candidates(wsl, installed).contains(method) <==> is_known(method)
            && installed.contains(method),
        forall|i: int, j: int|
            0 <= i < j < clipboard::candidates(wsl, installed).len() ==> preference(
                wsl,
                #[trigger] clipboard::candidates(wsl, installed)[i],
            ) < preference(wsl, #[trigger] clipboard::candidates(wsl, installed)[j]),
{
    lemma_names_differ();
    let all = clipboard::method_order(wsl);
    let pred = |method: Seq<char>| installed.contains(method);
    let tried = clipboard::candidates(wsl, installed);
    lemma_filter_ordered(wsl, all, pred);
    if tried.contains(method) {
        all.lemma_filter_contains_rev(pred, method);
        let i = choose|i: int| 0 <= i < tried.len() && tried[i] == method;
        all.lemma_filter_pred(pred, i);
    }
    if is_known(method) && installed.contains(method) {
        if wsl {
            assert(all[0] == "powershell.exe"@ && all[1] == "clip.exe"@ && all[2] == "wl-copy"@);
            assert(all[3] == "xclip"@ && all[4] == "xsel"@ && all[5] == "pbcopy"@);
            assert(all[6] == "termux-clipboard-set"@);
        } else {
            assert(all[0] == "wl-copy"@ && all[1] == "xclip"@ && all[2] == "xsel"@);
            assert(all[3] == "pbcopy"@ && all[4] == "termux-clipboard-set"@);
            assert(all[5] == "powershell.exe"@ && all[6] == "clip.exe"@);
        }
        let k = choose|k: int| 0 <= k < all.len() && all[k] == method;
        assert(all[k] == method);
        all.lemma_filter_contains(pred, k);
    }
}

/// The request to run the command with the given name.
spec fn run_request(method: Seq<char>, value: Seq<char>) -> CopyRequestView {
    CopyRequestView::Run(clipboard::method_command(method, value)->0)
}

/// Commands that fail are passed over.
proof fn lemma_pass_over(
    value: Seq<char>,
    allow_osc52: bool,
    methods: Seq<Seq<char>>,
    tmux: bool,
    answer: spec_fn(CopyRequestView) -> CopyReplyView,
    count: nat,
    k: nat,
)
    requires
        k <= methods.len(),
        k <= count,
        forall|j: int|
            0 <= j < k ==> answer(run_request(#[trigger] methods[j], value)) == CopyReplyView::Ran(
                false,
            ),
    ensures
        clipboard::copy_start(value, allow_osc52, methods, tmux).run(answer, count)
            == clipboard::copy_start(value, allow_osc52, methods.skip(k as int), tmux).run(
            answer,
            (count - k) as nat,
        ),
    decreases k,
{
    let start = clipboard::copy_start(value, allow_osc52, methods, tmux);
    if k == 0 {
        assert(methods.skip(0) =~= methods);
    } else {
        let rest = methods.drop_first();
        assert(answer(run_request(methods[0], value)) == CopyReplyView::Ran(false));
        assert(start.after(CopyReplyView::Ran(false)) =~= clipboard::copy_start(
            value,
            allow_osc52,
            rest,
            tmux,
        ));
        assert forall|j: int| 0 <= j < k - 1 implies answer(
            run_request(#[trigger] rest[j], value),
        ) == CopyReplyView::Ran(false) by {
            assert(rest[j] == methods[j + 1]);
        }
        lemma_pass_over(
            value,
            allow_osc52,
            rest,
            tmux,
            answer,
            (count - 1) as nat,
            (k - 1) as nat,
        );
        assert(rest.skip(k - 1) =~= methods.skip(k as int));
    }
}

/// The first command that succeeds ends the copying, and is named in the message.
pub proof fn law_first_working_command_copies(
    value: Seq<char>,
    allow_osc52: bool,
    methods: Seq<Seq<char>>,
    tmux: bool,
    answer: spec_fn(CopyRequestView) -> CopyReplyView,
    count: nat,
    k: int,
)
    requires
        0 <= k < methods.len(),
        k < count,
        forall|j: int|
            0 <= j < k ==> answer(
                CopyRequestView::Run(clipboard::method_command(#[trigger] methods[j], value)->0),
            ) == CopyReplyView::Ran(false),
        answer(CopyRequestView::Run(clipboard::method_command(methods[k], value)->0))
            == CopyReplyView::Ran(true),
    ensures
        clipboard::copy_start(value, allow_osc52, methods, tmux).run(answer, count).stage
            == CopyStageView::Done(
            ClipboardResultView { ok: true, message: "copied to clipboard via "@ + methods[k] },
        ),
{
    assert forall|j: int| 0 <= j < k implies answer(run_request(#[trigger] methods[j], value))
        == CopyReplyView::Ran(false) by {}
    lemma_pass_over(value, allow_osc52, methods, tmux, answer, count, k as nat);
    let rest = methods.skip(k);
    assert(rest[0] == methods[k]);
    reveal_with_fuel(ClipboardCopyView::run, 3);
}

/// Where every command fails, the terminal is asked if that is allowed; where that fails too or is
/// not allowed, the whole text is written to the file, the message says where it is, and nothing is
/// said to be copied.
#[verifier::spinoff_prover]
pub proof fn law_copying_without_a_working_command(
    value: Seq<char>,
    allow_osc52: bool,
    methods: Seq<Seq<char>>,
    tmux: bool,
    answer: spec_fn(CopyRequestView) -> CopyReplyView,
    count: nat,
)
    requires
        methods.len() + 2 <= count,
        forall|j: int|
            0 <= j < methods.len() ==> answer(
                CopyRequestView::Run(clipboard::method_command(#[trigger] methods[j], value)->0),
            ) == CopyReplyView::Ran(false),
    ensures
        ({
            let end = clipboard::copy_start(value, allow_osc52, methods, tmux).run(answer, count);
            let asked = answer(CopyRequestView::Print(clipboard::osc52_sequence(value, tmux)));
            let written = answer(
                CopyRequestView::Write { file_name: "diffmark-last-comment.txt"@, text: value },
            );
            &&& allow_osc52 && asked == CopyReplyView::Printed(true) ==> end.stage
                == CopyStageView::Done(
                ClipboardResultView {
                    ok: true,
                    message: "sent OSC52 clipboard sequence; terminal support may vary"@,
                },
            )
            &&& !allow_osc52 || asked == CopyReplyView::Printed(false) ==> {
                &&& written matches CopyReplyView::Written(Ok(path)) ==> end.stage
                    == CopyStageView::Done(
                    ClipboardResultView {
                        ok: false,
                        message: "clipboard unavailable; payload written to "@ + path,
                    },
                )
                &&& written matches CopyReplyView::Written(Err(error)) ==> end.stage
                    == CopyStageView::Done(
                    ClipboardResultView {
                        ok: false,
                        message: "clipboard unavailable; failed to write fallback: "@ + error,
                    },
                )
            }
        }),
{
    let n = methods.len();
    assert forall|j: int| 0 <= j < n implies answer(run_request(#[trigger] methods[j], value))
        == CopyReplyView::Ran(false) by {}
    lemma_pass_over(value, allow_osc52, methods, tmux, answer, count, n);
    assert(methods.skip(n as int) =~= Seq::<Seq<char>>::empty());
    reveal_with_fuel(ClipboardCopyView::run, 4);
}

/// The value of a digit of base64: letters from 0, small letters from 26, digits from 52, then `+`
/// and `/`.
pub open spec fn base64_value(c: char) -> int {
    if 'A' <= c <= 'Z' {
        c as int - 'A' as int
    } else if 'a' <= c <= 'z' {
        c as int - 'a' as int + 26
    } else if '0' <= c <= '9' {
        c as int - '0' as int + 52
    } else if c == '+' {
        62
    } else {
        63
    }
}

/// The digit with the value `n`.
#[verifier::spinoff_prover]
proof fn lemma_base64_digit(n: int)
    requires
        0 <= n < 64,
    ensures
        base64_value(clipboard::base64_alphabet()[n]) == n,
        clipboard::base64_alphabet()[n] != '=',
{
    reveal_strlit("ABCDEFGHIJKLMNOPQRSTUVWXYZabcdefghijklmnopqrstuvwxyz0123456789+/");
}

/// Byte `i` of the bytes that a text in base64 stands for.
pub open spec fn base64_byte(encoded: Seq<char>, i: int) -> int {
    let g = i / 3 * 4;
    if i % 3 == 0 {
        base64_value(encoded[g]) * 4 + base64_value(encoded[g + 1]) / 16
    } else if i % 3 == 1 {
        base64_value(encoded[g + 1]) % 16 * 16 + base64_value(encoded[g + 2]) / 4
    } else {
        base64_value(encoded[g + 2]) % 4 * 64 + base64_value(encoded[g + 3])
    }
}

/// The four digits of a group of three bytes give the bytes back.
#[verifier::spinoff_prover]
proof fn lemma_base64_group(a: int, b: int, c: int)
    requires
        0 <= a < 256,
        0 <= b < 256,
        0 <= c < 256,
    ensures
        ({
            let group = a * 0x10000 + b * 0x100 + c;
            let (p, q) = (group / 0x40000, group / 0x1000 % 0x40);
            let (r, s) = (group / 0x40 % 0x40, group % 0x40);
            &&& 0 <= p < 64 && 0 <= q < 64 && 0 <= r < 64 && 0 <= s < 64
            &&& a == p * 4 + q / 16
            &&& b == q % 16 * 16 + r / 4
            &&& c == r % 4 * 64 + s
        }),
{
    let group = a * 0x10000 + b * 0x100 + c;
    let p = a / 4;
    let q = a % 4 * 16 + b / 16;
    let r = b % 16 * 4 + c / 64;
    let s = c % 64;
    lemma_quotient(group, 0x40000, p, q * 0x1000 + r * 0x40 + s);
    lemma_quotient(group, 0x1000, p * 0x40 + q, r * 0x40 + s);
    lemma_quotient(group, 0x40, p * 0x1000 + q * 0x40 + r, s);
    lemma_quotient(p * 0x40 + q, 0x40, p, q);
    lemma_quotient(p * 0x1000 + q * 0x40 + r, 0x40, p * 0x40 + q, r);
}

/// The quotient and the remainder of a division.
proof fn lemma_quotient(n: int, d: int, quotient: int, rest: int)
    by (nonlinear_arith)
    requires
        d > 0,
        n == d * quotient + rest,
        0 <= rest < d,
    ensures
        n / d == quotient,
        n % d == rest,
{
}

/// Bytes that are written in base64 are read back, and the text is filled up with `=` to groups of
/// four characters.
#[verifier::spinoff_prover]
pub proof fn law_base64_is_read_back(bytes: Seq<u8>, i: int)
    requires
        0 <= i < bytes.len(),
    ensures
        clipboard::base64_text(bytes).len() == (bytes.len() + 2) / 3 * 4,
        base64_byte(clipboard::base64_text(bytes), i) == bytes[i],
        forall|p: int|
            0 <= p < clipboard::base64_text(bytes).len() ==> ((
            #[trigger] clipboard::base64_text(bytes)[p]) == '=' <==> p / 4 * 3 + p % 4
                > bytes.len()),
{
    let encoded = clipboard::base64_text(bytes);
    let start = i / 3 * 3;
    let a = clipboard::byte_or_zero(bytes, start);
    let b = clipboard::byte_or_zero(bytes, start + 1);
    let c = clipboard::byte_or_zero(bytes, start + 2);
    let group = a * 0x10000 + b * 0x100 + c;
    let g = i / 3 * 4;
    lemma_base64_group(a, b, c);
    lemma_base64_digit(group / 0x40000);
    lemma_base64_digit(group / 0x1000 % 0x40);
    lemma_base64_digit(group / 0x40 % 0x40);
    lemma_base64_digit(group % 0x40);
    assert(g + 3 < encoded.len());
    assert(g / 4 * 3 == start && (g + 1) / 4 * 3 == start);
    assert((g + 2) / 4 * 3 == start && (g + 3) / 4 * 3 == start);
    assert(encoded[g] == clipboard::base64_alphabet()[group / 0x40000]);
    assert(encoded[g + 1] == clipboard::base64_alphabet()[group / 0x1000 % 0x40]);
    if i % 3 >= 1 {
        assert(encoded[g + 2] == clipboard::base64_alphabet()[group / 0x40 % 0x40]);
    }
    if i % 3 == 2 {
        assert(encoded[g + 3] == clipboard::base64_alphabet()[group % 0x40]);
    }
    assert forall|p: int| 0 <= p < encoded.len() implies ((#[trigger] encoded[p]) == '=' <==> p / 4
        * 3 + p % 4 > bytes.len()) by {
        let from = p / 4 * 3;
        let x = clipboard::byte_or_zero(bytes, from);
        let y = clipboard::byte_or_zero(bytes, from + 1);
        let z = clipboard::byte_or_zero(bytes, from + 2);
        let all = x * 0x10000 + y * 0x100 + z;
        lemma_base64_group(x, y, z);
        lemma_base64_digit(all / 0x40000);
        lemma_base64_digit(all / 0x1000 % 0x40);
        lemma_base64_digit(all / 0x40 % 0x40);
        lemma_base64_digit(all % 0x40);
    }
}

/// The sequence that a terminal gets carries the text in UTF-8 and base64 between its start and its
/// end; inside tmux it is that same sequence, with the escape characters doubled, between the start
/// and the end of a passthrough.
#[verifier::spinoff_prover]
pub proof fn law_terminal_sequence_carries_text(value: Seq<char>)
    ensures
        ({
            let encoded = clipboard::base64_text(vstd::utf8::encode_utf8(value));
            let sequence = clipboard::osc52_sequence(value, false);
            let wrapped = clipboard::osc52_sequence(value, true);
            let n = wrapped.len() as int;
            &&& sequence == seq!['\x1b', ']', '5', '2', ';', 'c', ';'] + encoded + seq!['\x07']
            &&& n >= 9
            &&& wrapped.take(7) == seq!['\x1b', 'P', 't', 'm', 'u', 'x', ';']
            &&& wrapped.skip(n - 2) == seq!['\x1b', '\\']
            &&& clipboard::undouble_escapes(wrapped.subrange(7, n - 2)) == sequence
        }),
{
    reveal_strlit("\x1b]52;c;");
    reveal_strlit("\x07");
    reveal_strlit("\x1bPtmux;");
    reveal_strlit("\x1b\\");
    let sequence = clipboard::osc52_sequence(value, false);
    let wrapped = clipboard::osc52_sequence(value, true);
    let doubled = clipboard::double_escapes(sequence);
    let n = wrapped.len() as int;
    assert("\x1b]52;c;"@ =~= seq!['\x1b', ']', '5', '2', ';', 'c', ';']);
    assert("\x07"@ =~= seq!['\x07']);
    clipboard::law_tmux_passthrough_keeps_sequence(sequence);
    assert(wrapped.take(7) =~= seq!['\x1b', 'P', 't', 'm', 'u', 'x', ';']);
    assert(wrapped.skip(n - 2) =~= seq!['\x1b', '\\']);
    assert(wrapped.subrange(7, n - 2) =~= doubled);
}

/// The character is the small letter `letter`, or the same letter as a capital.
pub open spec fn is_letter(c: char, letter: char) -> bool {
    c == letter || ('a' <= letter <= 'z' && c as int == letter as int - 32)
}

/// `name` stands in `version` at position `k`, in small letters or capitals.
pub open spec fn names_at(version: Seq<char>, name: Seq<char>, k: int) -> bool {
    &&& 0 <= k && k + name.len() <= version.len()
    &&& forall|j: int| 0 <= j < name.len() ==> is_letter(version[k + j], #[trigger] name[j])
}

/// A name in small letters is found in a text in small letters exactly where it stands in it.
proof fn lemma_names(version: Seq<char>, name: Seq<char>)
    requires
        forall|j: int| 0 <= j < name.len() ==> 'a' <= #[trigger] name[j] <= 'z',
    ensures
        clipboard::contains_text(clipboard::ascii_lowercase(version), name) <==> exists|k: int|
            names_at(version, name, k),
{
    let lowered = clipboard::ascii_lowercase(version);
    text::lemma_find_text(lowered, name);
    if let Some(k) = text::find_text(lowered, name) {
        assert forall|j: int| 0 <= j < name.len() implies is_letter(
            version[k + j],
            #[trigger] name[j],
        ) by {
            assert(lowered.skip(k).take(name.len() as int)[j] == name[j]);
            assert(lowered[k + j] == clipboard::ascii_lower(version[k + j]));
            lemma_lower(version[k + j], name[j]);
        }
        assert(names_at(version, name, k));
    }
    if exists|k: int| names_at(version, name, k) {
        let k = choose|k: int| names_at(version, name, k);
        assert forall|j: int| 0 <= j < name.len() implies lowered.skip(k)[j] == name[j] by {
            assert(is_letter(version[k + j], name[j]));
            lemma_lower(version[k + j], name[j]);
        }
        assert(lowered.skip(k).take(name.len() as int) =~= name);
        assert(text::starts_with(lowered.skip(k), name));
    }
}

/// A character in small letters.
proof fn lemma_lower(c: char, letter: char)
    requires
        'a' <= letter <= 'z',
    ensures
        clipboard::ascii_lower(c) == letter <==> is_letter(c, letter),
{
    if 'A' <= c <= 'Z' {
        assert(c as u32 + 32 == c as int + 32);
        assert(((c as u32 + 32) as char) as int == c as int + 32);
    }
}

/// The system is the Windows Subsystem for Linux where its version names Microsoft or WSL, in small
/// letters or capitals.
pub proof fn law_wsl_is_recognised(version: Seq<char>)
    ensures
        clipboard::names_wsl(version) <==> (exists|k: int| names_at(version, "microsoft"@, k)) || (
        exists|k: int| names_at(version, "wsl"@, k)),
{
    reveal_strlit("microsoft");
    reveal_strlit("wsl");
    lemma_names(version, "microsoft"@);
    lemma_names(version, "wsl"@);
}

} // verus!
