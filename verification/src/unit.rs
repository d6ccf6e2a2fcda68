//! Unit files: the text that backs a persisted job.

use vstd::prelude::*;
use vstd::utf8::encode_utf8;

use crate::cli::{RunSpec, RunSpecView};
use crate::error::{ParseError, ParseErrorView};
use crate::name::JobName;
use crate::text::{bytes_eq, copy_bytes, lossy, text_of, words};

verus! {

/// Line feed.
pub const LF: u8 = 10;

/// Carriage return.
pub const CR: u8 = 13;

/// Space.
pub const SPACE: u8 = 32;

/// `"`
pub const QUOTE: u8 = 34;

/// `%`
pub const PERCENT: u8 = 37;

/// `=`
pub const EQUALS: u8 = 61;

/// `\`
pub const BACKSLASH: u8 = 92;

/// `x`, which starts a hexadecimal escape.
pub const HEX_MARK: u8 = 120;

// ---------------------------------------------------------------------------
// Quoting
// ---------------------------------------------------------------------------

/// The hexadecimal digit of a number below sixteen.
pub open spec fn hex_digit(n: u8) -> u8 {
    if n < 10 {
        (48 + n) as u8
    } else {
        (87 + n) as u8
    }
}

/// Bytes that no line of a unit file holds as they are.
pub open spec fn control(b: u8) -> bool {
    b < SPACE || b == 127
}

/// A byte as it stands in a quoted word. Backslash and quote are escaped, `%` is
/// doubled because a unit file would expand it, and control bytes become hexadecimal
/// escapes.
pub open spec fn escaped_byte(b: u8) -> Seq<u8> {
    if b == BACKSLASH || b == QUOTE {
        seq![BACKSLASH, b]
    } else if b == PERCENT {
        seq![PERCENT, PERCENT]
    } else if control(b) {
        seq![BACKSLASH, HEX_MARK, hex_digit((b / 16) as u8), hex_digit((b % 16) as u8)]
    } else {
        seq![b]
    }
}

/// The bytes of a word as they stand between the quotes.
pub open spec fn escaped(word: Seq<u8>) -> Seq<u8>
    decreases word.len(),
{
    if word.len() == 0 {
        Seq::empty()
    } else {
        escaped_byte(word[0]) + escaped(word.skip(1))
    }
}

/// A word in double quotes.
pub open spec fn quoted(word: Seq<u8>) -> Seq<u8> {
    seq![QUOTE] + escaped(word) + seq![QUOTE]
}

/// A command as the value of `ExecStart=`: its words, quoted, with spaces between.
pub open spec fn exec_line(command: Seq<Seq<u8>>) -> Seq<u8>
    decreases command.len(),
{
    if command.len() == 0 {
        Seq::empty()
    } else if command.len() == 1 {
        quoted(command[0])
    } else {
        quoted(command[0]) + seq![SPACE] + exec_line(command.skip(1))
    }
}

// ---------------------------------------------------------------------------
// Overrides
// ---------------------------------------------------------------------------

/// `[A-Za-z0-9]`
pub open spec fn key_byte(b: u8) -> bool {
    65 <= b <= 90 || 97 <= b <= 122 || 48 <= b <= 57
}

/// Whether the first `at` bytes of a word are a key, and an equals sign follows.
pub open spec fn key_ends_at(word: Seq<u8>, at: int) -> bool {
    &&& 0 < at < word.len()
    &&& word[at] == EQUALS
    &&& forall|i: int| 0 <= i < at ==> key_byte(#[trigger] word[i])
}

/// Bytes that end a line of a unit file.
pub open spec fn line_end(b: u8) -> bool {
    b == 0 || b == LF || b == CR
}

/// Whether a word is a `KEY=VALUE` that is one line of a unit file: nothing in it
/// ends the line, and it does not end in a backslash, which would continue it.
pub open spec fn setting(word: Seq<u8>) -> bool {
    &&& exists|at: int| key_ends_at(word, at)
    &&& forall|i: int| 0 <= i < word.len() ==> !line_end(#[trigger] word[i])
    &&& word.last() != BACKSLASH
}

/// The option that a setting follows.
pub open spec fn property_option() -> Seq<u8> {
    encode_utf8("-p"@)
}

/// The first of the overrides that a unit file cannot hold.
pub open spec fn unsupported(opts: Seq<Seq<u8>>) -> Option<Seq<u8>>
    decreases opts.len(),
{
    if opts.len() == 0 {
        None
    } else if opts[0] != property_option() || opts.len() == 1 {
        Some(opts[0])
    } else if !setting(opts[1]) {
        Some(opts[1])
    } else {
        unsupported(opts.skip(2))
    }
}

/// The settings among `-p KEY=VALUE` overrides, one to a line.
pub open spec fn setting_lines(opts: Seq<Seq<u8>>) -> Seq<u8>
    decreases opts.len(),
{
    if opts.len() < 2 {
        Seq::empty()
    } else {
        opts[1].push(LF) + setting_lines(opts.skip(2))
    }
}

/// The unit file of a job.
pub open spec fn unit_text(name: Seq<char>, spec: RunSpecView) -> Seq<u8> {
    encode_utf8("[Unit]\nDescription=bgrun job "@) + encode_utf8(name) + encode_utf8(
        "\n\n[Service]\nExecStart="@,
    ) + exec_line(spec.command).push(LF) + setting_lines(spec.systemd_opts) + encode_utf8(
        "\n[Install]\nWantedBy=default.target\n"@,
    )
}

// ---------------------------------------------------------------------------
// Writing a unit file
// ---------------------------------------------------------------------------

fn to_hex_digit(n: u8) -> (res: u8)
    requires
        n < 16,
    ensures
        res == hex_digit(n),
{
    if n < 10 {
        48 + n
    } else {
        87 + n
    }
}

/// Appends bytes.
fn put(out: &mut Vec<u8>, bytes: &[u8])
    ensures
        final(out)@ == old(out)@ + bytes@,
{
    let mut tail = copy_bytes(bytes);
    out.append(&mut tail);
}

/// Appends one byte of a quoted word.
fn put_escaped_byte(out: &mut Vec<u8>, b: u8)
    ensures
        final(out)@ == old(out)@ + escaped_byte(b),
{
    if b == BACKSLASH || b == QUOTE {
        out.push(BACKSLASH);
        out.push(b);
    } else if b == PERCENT {
        out.push(PERCENT);
        out.push(PERCENT);
    } else if b < SPACE || b == 127 {
        out.push(BACKSLASH);
        out.push(HEX_MARK);
        out.push(to_hex_digit(b / 16));
        out.push(to_hex_digit(b % 16));
    } else {
        out.push(b);
    }
    assert(out@ =~= old(out)@ + escaped_byte(b));
}

/// Appends a quoted word.
fn put_quoted(out: &mut Vec<u8>, word: &[u8])
    ensures
        final(out)@ == old(out)@ + quoted(word@),
{
    out.push(QUOTE);
    let ghost start = out@;
    let mut i: usize = 0;
    assert(word@.skip(0) =~= word@);
    assert(start + escaped(word@) =~= out@ + escaped(word@.skip(0)));
    while i < word.len()
        invariant
            i <= word.len(),
            start + escaped(word@) == out@ + escaped(word@.skip(i as int)),
        decreases word.len() - i,
    {
        let ghost before = out@;
        put_escaped_byte(out, word[i]);
        proof {
            let rest = word@.skip(i as int);
            assert(rest.skip(1) =~= word@.skip(i + 1));
            assert(before + (escaped_byte(rest[0]) + escaped(rest.skip(1))) =~= (before
                + escaped_byte(rest[0])) + escaped(rest.skip(1)));
        }
        i += 1;
    }
    assert(out@ + escaped(word@.skip(i as int)) =~= out@);
    out.push(QUOTE);
    assert(out@ =~= old(out)@ + quoted(word@));
}

/// Appends a command as the value of `ExecStart=`.
fn put_exec_line(out: &mut Vec<u8>, command: &Vec<Vec<u8>>)
    ensures
        final(out)@ == old(out)@ + exec_line(words(command@)),
{
    let ghost all = words(command@);
    let mut i: usize = 0;
    assert(all.skip(0) =~= all);
    while i < command.len()
        invariant
            i <= command.len(),
            all == words(command@),
            old(out)@ + exec_line(all) == out@ + exec_line(all.skip(i as int)),
        decreases command.len() - i,
    {
        let ghost before = out@;
        let ghost rest = all.skip(i as int);
        put_quoted(out, command[i].as_slice());
        assert(rest[0] == command@[i as int]@);
        if i + 1 < command.len() {
            out.push(SPACE);
            assert(rest.skip(1) =~= all.skip(i + 1));
            assert(before + exec_line(rest) =~= out@ + exec_line(rest.skip(1)));
        } else {
            assert(all.skip(i + 1).len() == 0);
            assert(before + exec_line(rest) =~= out@ + exec_line(all.skip(i + 1)));
        }
        i += 1;
    }
    assert(out@ + exec_line(all.skip(i as int)) =~= out@);
}

fn is_key_byte(b: u8) -> (res: bool)
    ensures
        res == key_byte(b),
{
    (65 <= b && b <= 90) || (97 <= b && b <= 122) || (48 <= b && b <= 57)
}

/// Whether a word is one line's `KEY=VALUE`.
fn is_setting(word: &[u8]) -> (res: bool)
    ensures
        res == setting(word@),
{
    let mut at: usize = 0;
    while at < word.len() && is_key_byte(word[at])
        invariant
            at <= word.len(),
            forall|i: int| 0 <= i < at ==> key_byte(#[trigger] word@[i]),
        decreases word.len() - at,
    {
        at += 1;
    }
    if at == 0 || at == word.len() || word[at] != EQUALS {
        assert forall|k: int| !key_ends_at(word@, k) by {
            if key_ends_at(word@, k) {
                if k < at {
                    assert(key_byte(word@[k]));
                } else if at < k {
                    assert(key_byte(word@[at as int]));
                }
            }
        }
        return false;
    }
    assert(key_ends_at(word@, at as int));
    let mut i: usize = 0;
    while i < word.len()
        invariant
            i <= word.len(),
            forall|j: int| 0 <= j < i ==> !line_end(#[trigger] word@[j]),
        decreases word.len() - i,
    {
        if word[i] == 0 || word[i] == LF || word[i] == CR {
            assert(line_end(word@[i as int]));
            return false;
        }
        i += 1;
    }
    word[word.len() - 1] != BACKSLASH
}

/// Appends the settings among the overrides, or gives the first override that a unit
/// file cannot hold.
fn put_settings(out: &mut Vec<u8>, opts: &Vec<Vec<u8>>) -> (res: Result<(), ParseError>)
    ensures
        match res {
            Ok(_) => unsupported(words(opts@)) is None && final(out)@ == old(out)@
                + setting_lines(words(opts@)),
            Err(error) => unsupported(words(opts@)) matches Some(word) && error@ == (
            ParseErrorView::UnsupportedOverride { value: text_of(word) }),
        },
{
    let ghost all = words(opts@);
    let mut i: usize = 0;
    assert(all.skip(0) =~= all);
    while i < opts.len()
        invariant
            i <= opts.len(),
            all == words(opts@),
            unsupported(all) == unsupported(all.skip(i as int)),
            old(out)@ + setting_lines(all) == out@ + setting_lines(all.skip(i as int)),
        decreases opts.len() - i,
    {
        let ghost before = out@;
        let ghost rest = all.skip(i as int);
        assert(rest[0] == opts@[i as int]@);
        if !bytes_eq(opts[i].as_slice(), "-p".as_bytes()) || opts.len() - i == 1 {
            return Err(
                ParseError::UnsupportedOverride { value: lossy(opts[i].as_slice()) },
            );
        }
        assert(rest[1] == opts@[i + 1]@);
        if !is_setting(opts[i + 1].as_slice()) {
            return Err(
                ParseError::UnsupportedOverride { value: lossy(opts[i + 1].as_slice()) },
            );
        }
        put(out, opts[i + 1].as_slice());
        out.push(LF);
        assert(rest.skip(2) =~= all.skip(i + 2));
        assert(before + setting_lines(rest) =~= out@ + setting_lines(rest.skip(2)));
        i += 2;
    }
    assert(out@ + setting_lines(all.skip(i as int)) =~= out@);
    Ok(())
}

/// The unit file that backs a persisted job: it runs the job's command, carries the
/// `-p KEY=VALUE` overrides, and hooks the job into every boot.
pub fn unit_file(name: &JobName, spec: &RunSpec) -> (res: Result<Vec<u8>, ParseError>)
    ensures
        match res {
            Ok(body) => unsupported(spec@.systemd_opts) is None && body@ == unit_text(name@, spec@),
            Err(error) => unsupported(spec@.systemd_opts) matches Some(word) && error@ == (
            ParseErrorView::UnsupportedOverride { value: text_of(word) }),
        },
{
    let mut out = "[Unit]\nDescription=bgrun job ".as_bytes_vec();
    put(&mut out, name.as_str().as_bytes());
    put(&mut out, "\n\n[Service]\nExecStart=".as_bytes());
    let ghost head = out@;
    put_exec_line(&mut out, &spec.command);
    out.push(LF);
    assert(out@ =~= head + exec_line(spec@.command).push(LF));
    match put_settings(&mut out, &spec.systemd_opts) {
        Ok(_) => {},
        Err(error) => return Err(error),
    }
    put(&mut out, "\n[Install]\nWantedBy=default.target\n".as_bytes());
    Ok(out)
}

// ---------------------------------------------------------------------------
// Reading a command back
// ---------------------------------------------------------------------------

/// The value of a hexadecimal digit.
pub open spec fn hex_value(digit: u8) -> Option<u8> {
    if 48 <= digit <= 57 {
        Some((digit - 48) as u8)
    } else if 97 <= digit <= 102 {
        Some((digit - 87) as u8)
    } else {
        None
    }
}

/// Reads one byte of a quoted word; gives it with what follows.
pub open spec fn read_byte(line: Seq<u8>) -> Option<(u8, Seq<u8>)> {
    if line.len() == 0 || line[0] == QUOTE {
        None
    } else if line[0] == BACKSLASH {
        if line.len() >= 2 && (line[1] == BACKSLASH || line[1] == QUOTE) {
            Some((line[1], line.skip(2)))
        } else if line.len() >= 4 && line[1] == HEX_MARK {
            match (hex_value(line[2]), hex_value(line[3])) {
                (Some(high), Some(low)) => Some(((16 * high + low) as u8, line.skip(4))),
                _ => None,
            }
        } else {
            None
        }
    } else if line[0] == PERCENT {
        if line.len() >= 2 && line[1] == PERCENT {
            Some((PERCENT, line.skip(2)))
        } else {
            None
        }
    } else {
        Some((line[0], line.skip(1)))
    }
}

/// Reads a quoted word whose opening quote is read already, up to and with its
/// closing quote; gives it with what follows.
pub open spec fn read_word(line: Seq<u8>) -> Option<(Seq<u8>, Seq<u8>)>
    decreases line.len(),
{
    if line.len() > 0 && line[0] == QUOTE {
        Some((Seq::empty(), line.skip(1)))
    } else {
        match read_byte(line) {
            Some((b, rest)) => if rest.len() < line.len() {
                match read_word(rest) {
                    Some((word, after)) => Some((seq![b] + word, after)),
                    None => None,
                }
            } else {
                None
            },
            None => None,
        }
    }
}

/// Reads quoted words with single spaces between them.
pub open spec fn read_words(line: Seq<u8>) -> Option<Seq<Seq<u8>>>
    decreases line.len(),
{
    if line.len() == 0 {
        Some(Seq::empty())
    } else if line[0] != QUOTE {
        None
    } else {
        match read_word(line.skip(1)) {
            Some((word, rest)) => if rest.len() == 0 {
                Some(seq![word])
            } else if rest[0] == SPACE && rest.len() < line.len() {
                match read_words(rest.skip(1)) {
                    Some(more) => Some(seq![word] + more),
                    None => None,
                }
            } else {
                None
            },
            None => None,
        }
    }
}

proof fn lemma_read_byte(b: u8, rest: Seq<u8>)
    ensures
        read_byte(escaped_byte(b) + rest) == Some((b, rest)),
        escaped_byte(b).len() > 0,
        escaped_byte(b)[0] != QUOTE,
{
    let line = escaped_byte(b) + rest;
    assert(line.skip(escaped_byte(b).len() as int) =~= rest);
    if b != BACKSLASH && b != QUOTE && b != PERCENT && control(b) {
        let high = (b / 16) as u8;
        let low = (b % 16) as u8;
        assert(high < 16 && low < 16 && 16 * high + low == b);
        assert(hex_value(hex_digit(high)) == Some(high));
        assert(hex_value(hex_digit(low)) == Some(low));
        assert(line[2] == hex_digit(high) && line[3] == hex_digit(low));
    }
}

/// One byte more in front of a word that can be read.
proof fn lemma_read_word_step(line: Seq<u8>, b: u8, tail: Seq<u8>, word: Seq<u8>, rest: Seq<u8>)
    requires
        line.len() > tail.len(),
        line[0] != QUOTE,
        read_byte(line) == Some((b, tail)),
        read_word(tail) == Some((word, rest)),
    ensures
        read_word(line) == Some((seq![b] + word, rest)),
{
}

#[verifier::spinoff_prover]
proof fn lemma_read_word(word: Seq<u8>, rest: Seq<u8>)
    ensures
        read_word(escaped(word) + seq![QUOTE] + rest) == Some((word, rest)),
    decreases word.len(),
{
    let line = escaped(word) + seq![QUOTE] + rest;
    if word.len() == 0 {
        assert(line[0] == QUOTE);
        assert(line.skip(1) =~= rest);
    } else {
        let tail = escaped(word.skip(1)) + seq![QUOTE] + rest;
        lemma_read_byte(word[0], tail);
        lemma_read_word(word.skip(1), rest);
        assert(line =~= escaped_byte(word[0]) + tail);
        assert(line[0] == escaped_byte(word[0])[0]);
        lemma_read_word_step(line, word[0], tail, word.skip(1), rest);
        assert(seq![word[0]] + word.skip(1) =~= word);
    }
}

// ---------------------------------------------------------------------------
// Laws
// ---------------------------------------------------------------------------

/// The command that a unit file holds reads back, by [`read_words`], as the command
/// that was given, word for word and byte for byte.
///
/// Quotes, escapes and `%%` are what [`read_words`] undoes. Of the words so read,
/// systemd itself goes on to expand `$` variables, and takes `@`, `-`, `:`, `+` or `!`
/// at the start of the first word as a prefix.
pub proof fn exec_line_round_trip(command: Seq<Seq<u8>>)
    ensures
        read_words(exec_line(command)) == Some(command),
    decreases command.len(),
{
    let line = exec_line(command);
    if command.len() == 0 {
        assert(Seq::<Seq<u8>>::empty() =~= command);
    } else {
        assert(line[0] == QUOTE);
        if command.len() == 1 {
            lemma_read_word(command[0], Seq::empty());
            assert(line.skip(1) =~= escaped(command[0]) + seq![QUOTE] + Seq::<u8>::empty());
            assert(seq![command[0]] =~= command);
        } else {
            let more = exec_line(command.skip(1));
            let rest = seq![SPACE] + more;
            lemma_read_word(command[0], rest);
            assert(line.skip(1) =~= escaped(command[0]) + seq![QUOTE] + rest);
            exec_line_round_trip(command.skip(1));
            assert(rest.skip(1) =~= more);
            assert(seq![command[0]] + command.skip(1) =~= command);
        }
    }
}

/// Different commands have different lines.
pub proof fn exec_lines_tell_commands_apart(a: Seq<Seq<u8>>, b: Seq<Seq<u8>>)
    requires
        exec_line(a) == exec_line(b),
    ensures
        a == b,
{
    exec_line_round_trip(a);
    exec_line_round_trip(b);
}

proof fn lemma_escaped_is_printable(word: Seq<u8>)
    ensures
        forall|i: int| 0 <= i < escaped(word).len() ==> !control(#[trigger] escaped(word)[i]),
    decreases word.len(),
{
    if word.len() > 0 {
        lemma_escaped_is_printable(word.skip(1));
        let head = escaped_byte(word[0]);
        assert forall|i: int| 0 <= i < head.len() implies !control(#[trigger] head[i]) by {
            let high = (word[0] / 16) as u8;
            let low = (word[0] % 16) as u8;
            assert(high < 16 && low < 16);
            assert(!control(hex_digit(high)) && !control(hex_digit(low)));
        }
        assert forall|i: int| 0 <= i < escaped(word).len() implies !control(
            #[trigger] escaped(word)[i],
        ) by {
            if i < head.len() {
                assert(escaped(word)[i] == head[i]);
            } else {
                assert(escaped(word)[i] == escaped(word.skip(1))[i - head.len()]);
            }
        }
    }
}

/// Whatever the command holds, the value of `ExecStart=` is one line: no control byte
/// stands in it.
pub proof fn exec_line_is_one_line(command: Seq<Seq<u8>>)
    ensures
        forall|i: int|
            0 <= i < exec_line(command).len() ==> !control(#[trigger] exec_line(command)[i]),
    decreases command.len(),
{
    if command.len() > 0 {
        let first = quoted(command[0]);
        lemma_escaped_is_printable(command[0]);
        assert forall|i: int| 0 <= i < first.len() implies !control(#[trigger] first[i]) by {
            if 0 < i < first.len() - 1 {
                assert(first[i] == escaped(command[0])[i - 1]);
            }
        }
        if command.len() > 1 {
            exec_line_is_one_line(command.skip(1));
            let line = exec_line(command);
            assert forall|i: int| 0 <= i < line.len() implies !control(#[trigger] line[i]) by {
                if i < first.len() {
                    assert(line[i] == first[i]);
                } else if i > first.len() {
                    assert(line[i] == exec_line(command.skip(1))[i - first.len() - 1]);
                }
            }
        }
    }
}

/// Whether the pair of words at position `2 * i` is a `-p KEY=VALUE` override.
pub open spec fn setting_pair(opts: Seq<Seq<u8>>, i: int) -> bool {
    opts[2 * i] == property_option() && setting(opts[2 * i + 1])
}

/// Whether overrides are `-p KEY=VALUE` pairs throughout.
pub open spec fn all_settings(opts: Seq<Seq<u8>>) -> bool {
    &&& opts.len() % 2 == 0
    &&& forall|i: int| 0 <= 2 * i < opts.len() ==> #[trigger] setting_pair(opts, i)
}

/// Overrides can be written to a unit file exactly if they are `-p KEY=VALUE` pairs
/// throughout.
pub proof fn only_settings_are_supported(opts: Seq<Seq<u8>>)
    ensures
        unsupported(opts) is None <==> all_settings(opts),
    decreases opts.len(),
{
    if opts.len() == 1 {
    } else if opts.len() >= 2 {
        let rest = opts.skip(2);
        only_settings_are_supported(rest);
        assert(setting_pair(opts, 0) == (opts[0] == property_option() && setting(opts[1])));
        if all_settings(opts) {
            assert forall|i: int| 0 <= 2 * i < rest.len() implies #[trigger] setting_pair(
                rest,
                i,
            ) by {
                assert(setting_pair(opts, i + 1));
            }
        }
        if setting_pair(opts, 0) && all_settings(rest) {
            assert forall|i: int| 0 <= 2 * i < opts.len() implies #[trigger] setting_pair(
                opts,
                i,
            ) by {
                if i > 0 {
                    assert(setting_pair(rest, i - 1));
                }
            }
        }
    }
}

/// The override that restarts a job can always be persisted: what a unit file cannot
/// hold is the same with it and without it.
pub proof fn restart_can_be_persisted(opts: Seq<Seq<u8>>)
    ensures
        unsupported(crate::cli::restart_override() + opts) == unsupported(opts),
{
    let all = crate::cli::restart_override() + opts;
    assert(all.skip(2) =~= opts);
    let word = encode_utf8("Restart=on-failure"@);
    assert(all[1] == word);
    reveal_strlit("Restart=on-failure");
    vstd::utf8::is_ascii_chars_encode_utf8("Restart=on-failure"@);
    let text = "Restart=on-failure"@;
    assert(key_ends_at(word, 7)) by {
        assert(text[7] == '=' && word[7] == EQUALS);
        assert forall|i: int| 0 <= i < 7 implies key_byte(#[trigger] word[i]) by {
            assert('A' <= text[i] <= 'Z' || 'a' <= text[i] <= 'z');
        }
    }
    assert forall|i: int| 0 <= i < word.len() implies !line_end(#[trigger] word[i]) by {
        assert(text[i] as u8 == word[i]);
    }
    assert(text[17] == 'e' && word[17] == 101);
}

/// Whether a text has a line, from the start of the line to its line feed.
pub open spec fn has_line(text: Seq<u8>, line: Seq<u8>) -> bool {
    exists|before: Seq<u8>, after: Seq<u8>|
        {
            &&& text == #[trigger] (before + line.push(LF) + after)
            &&& before.len() == 0 || before.last() == LF
        }
}

proof fn lemma_has_line(text: Seq<u8>, before: Seq<u8>, line: Seq<u8>, after: Seq<u8>)
    requires
        text == before + line.push(LF) + after,
        before.len() == 0 || before.last() == LF,
    ensures
        has_line(text, line),
{
}

proof fn lemma_setting_line(opts: Seq<Seq<u8>>, i: int) -> (res: (Seq<u8>, Seq<u8>))
    requires
        0 <= i,
        2 * i + 1 < opts.len(),
    ensures
        setting_lines(opts) == res.0 + opts[2 * i + 1].push(LF) + res.1,
        res.0.len() == 0 || res.0.last() == LF,
    decreases i,
{
    let first = opts[1].push(LF);
    let rest = opts.skip(2);
    if i == 0 {
        let before = Seq::<u8>::empty();
        assert(setting_lines(opts) =~= before + first + setting_lines(rest));
        (before, setting_lines(rest))
    } else {
        let (before, after) = lemma_setting_line(rest, i - 1);
        let head = first + before;
        assert(rest[2 * (i - 1) + 1] == opts[2 * i + 1]);
        assert(setting_lines(opts) =~= head + opts[2 * i + 1].push(LF) + after);
        assert(head.last() == LF) by {
            if before.len() == 0 {
                assert(head =~= first);
            } else {
                assert(head.last() == before.last());
            }
        }
        (head, after)
    }
}

/// A unit file has a line for the command, and a line for the boot hook.
pub proof fn unit_text_runs_the_command(name: Seq<char>, spec: RunSpecView)
    ensures
        has_line(unit_text(name, spec), encode_utf8("ExecStart="@) + exec_line(spec.command)),
        has_line(unit_text(name, spec), encode_utf8("WantedBy=default.target"@)),
{
    let head = encode_utf8("[Unit]\nDescription=bgrun job "@) + encode_utf8(name);
    let service = encode_utf8("\n\n[Service]\nExecStart="@);
    let install = encode_utf8("\n[Install]\nWantedBy=default.target\n"@);
    let exec = encode_utf8("ExecStart="@);
    let hook = encode_utf8("WantedBy=default.target"@);
    let body = exec_line(spec.command).push(LF);
    let settings = setting_lines(spec.systemd_opts);
    reveal_strlit("\n\n[Service]\nExecStart=");
    reveal_strlit("\n[Install]\nWantedBy=default.target\n");
    reveal_strlit("ExecStart=");
    reveal_strlit("WantedBy=default.target");
    vstd::utf8::is_ascii_chars_encode_utf8("\n\n[Service]\nExecStart="@);
    vstd::utf8::is_ascii_chars_encode_utf8("\n[Install]\nWantedBy=default.target\n"@);
    vstd::utf8::is_ascii_chars_encode_utf8("ExecStart="@);
    vstd::utf8::is_ascii_chars_encode_utf8("WantedBy=default.target"@);
    assert(service.skip(12) =~= exec) by {
        assert forall|i: int| 0 <= i < exec.len() implies service[i + 12] == exec[i] by {
            assert("\n\n[Service]\nExecStart="@[i + 12] == "ExecStart="@[i]);
        }
    }
    assert(install.subrange(11, 34) =~= hook) by {
        assert forall|i: int| 0 <= i < hook.len() implies install[i + 11] == hook[i] by {
            assert("\n[Install]\nWantedBy=default.target\n"@[i + 11]
                == "WantedBy=default.target"@[i]);
        }
    }
    let text = unit_text(name, spec);
    let before = head + service.take(12);
    assert("\n\n[Service]\nExecStart="@[11] == '\n');
    assert(before.last() == LF);
    assert(text =~= before + (exec + exec_line(spec.command)).push(LF) + (settings + install));
    lemma_has_line(text, before, exec + exec_line(spec.command), settings + install);
    let front = head + service + body + settings + install.take(11);
    assert("\n[Install]\nWantedBy=default.target\n"@[10] == '\n');
    assert("\n[Install]\nWantedBy=default.target\n"@[34] == '\n');
    assert(front.last() == LF);
    assert(text =~= front + hook.push(LF) + Seq::<u8>::empty());
    lemma_has_line(text, front, hook, Seq::<u8>::empty());
}

/// A unit file has a line for each `-p KEY=VALUE` override.
pub proof fn unit_text_carries_settings(name: Seq<char>, spec: RunSpecView, i: int)
    requires
        all_settings(spec.systemd_opts),
        0 <= 2 * i < spec.systemd_opts.len(),
    ensures
        has_line(unit_text(name, spec), spec.systemd_opts[2 * i + 1]),
{
    let opts = spec.systemd_opts;
    let (before, after) = lemma_setting_line(opts, i);
    let head = encode_utf8("[Unit]\nDescription=bgrun job "@) + encode_utf8(name) + encode_utf8(
        "\n\n[Service]\nExecStart="@,
    ) + exec_line(spec.command).push(LF);
    let tail = encode_utf8("\n[Install]\nWantedBy=default.target\n"@);
    let front = head + before;
    assert(front.last() == LF) by {
        if before.len() == 0 {
            assert(front =~= head);
        } else {
            assert(front.last() == before.last());
        }
    }
    assert(unit_text(name, spec) =~= front + opts[2 * i + 1].push(LF) + (after + tail));
    lemma_has_line(unit_text(name, spec), front, opts[2 * i + 1], after + tail);
}

/// Whether a word is a key of ASCII letters and digits, an equals sign and a value,
/// where no byte of the value is NUL, line feed or carriage return, and the last is no
/// backslash.
pub open spec fn assigns(word: Seq<u8>, key: Seq<u8>, value: Seq<u8>) -> bool {
    &&& word == key + seq![61u8] + value
    &&& key.len() > 0
    &&& forall|i: int|
        0 <= i < key.len() ==> (65 <= #[trigger] key[i] && key[i] <= 90) || (97 <= key[i] && key[i]
            <= 122) || (48 <= key[i] && key[i] <= 57)
    &&& forall|i: int|
        0 <= i < value.len() ==> #[trigger] value[i] != 0 && value[i] != 10 && value[i] != 13
    &&& value.len() > 0 ==> value.last() != 92
}

/// Every `KEY=VALUE` is a setting.
proof fn lemma_assignment_is_setting(word: Seq<u8>, key: Seq<u8>, value: Seq<u8>)
    requires
        assigns(word, key, value),
    ensures
        setting(word),
{
    let at = key.len() as int;
    assert(word[at] == EQUALS);
    assert forall|i: int| 0 <= i < at implies key_byte(#[trigger] word[i]) by {
        assert(word[i] == key[i]);
    }
    assert(key_ends_at(word, at));
    assert forall|i: int| 0 <= i < word.len() implies !line_end(#[trigger] word[i]) by {
        if i < at {
            assert(word[i] == key[i]);
        } else if i > at {
            assert(word[i] == value[i - at - 1]);
        }
    }
    if value.len() > 0 {
        assert(word.last() == value.last());
    } else {
        assert(word.last() == EQUALS);
    }
}

/// Every setting is a `KEY=VALUE`.
proof fn lemma_setting_is_assignment(word: Seq<u8>) -> (res: (Seq<u8>, Seq<u8>))
    requires
        setting(word),
    ensures
        assigns(word, res.0, res.1),
{
    let at = choose|at: int| key_ends_at(word, at);
    let key = word.take(at);
    let value = word.skip(at + 1);
    assert(word =~= key + seq![61u8] + value);
    assert forall|i: int| 0 <= i < key.len() implies (65 <= #[trigger] key[i] && key[i] <= 90) || (
    97 <= key[i] && key[i] <= 122) || (48 <= key[i] && key[i] <= 57) by {
        assert(key_byte(word[i]));
    }
    assert forall|i: int| 0 <= i < value.len() implies #[trigger] value[i] != 0 && value[i] != 10
        && value[i] != 13 by {
        assert(!line_end(word[at + 1 + i]));
    }
    (key, value)
}

/// Every `-p KEY=VALUE` override can be persisted, wherever it stands: of the overrides
/// that follow it, a unit file can hold as much as it could without it.
pub proof fn every_assignment_can_be_persisted(
    word: Seq<u8>,
    key: Seq<u8>,
    value: Seq<u8>,
    rest: Seq<Seq<u8>>,
)
    requires
        assigns(word, key, value),
    ensures
        unsupported(seq![encode_utf8("-p"@), word]) is None,
        unsupported(seq![encode_utf8("-p"@), word] + rest) == unsupported(rest),
{
    lemma_assignment_is_setting(word, key, value);
    let pair = seq![encode_utf8("-p"@), word];
    assert(pair.skip(2) =~= Seq::empty());
    assert(unsupported(pair.skip(2)) is None);
    assert((pair + rest).skip(2) =~= rest);
}

/// Whether the pair of words at position `2 * i` is `-p` and `KEY=VALUE`.
pub open spec fn pair_assigns(
    opts: Seq<Seq<u8>>,
    i: int,
    key: Seq<u8>,
    value: Seq<u8>,
) -> bool {
    opts[2 * i] == encode_utf8("-p"@) && assigns(opts[2 * i + 1], key, value)
}

/// Whether overrides are `-p KEY=VALUE` throughout, with these keys and values.
pub open spec fn assigns_all(
    opts: Seq<Seq<u8>>,
    keys: Seq<Seq<u8>>,
    values: Seq<Seq<u8>>,
) -> bool {
    &&& opts.len() == 2 * keys.len()
    &&& values.len() == keys.len()
    &&& forall|i: int|
        0 <= i < keys.len() ==> pair_assigns(opts, i, #[trigger] keys[i], values[i])
}

/// However many `-p KEY=VALUE` overrides there are, all of them can be persisted, with
/// `--restart` or without.
pub proof fn any_number_of_assignments_can_be_persisted(
    opts: Seq<Seq<u8>>,
    keys: Seq<Seq<u8>>,
    values: Seq<Seq<u8>>,
)
    requires
        assigns_all(opts, keys, values),
    ensures
        unsupported(opts) is None,
        unsupported(seq![encode_utf8("-p"@), encode_utf8("Restart=on-failure"@)] + opts) is None,
    decreases keys.len(),
{
    restart_can_be_persisted(opts);
    if keys.len() > 0 {
        let rest = opts.skip(2);
        let (later, given) = (keys.skip(1), values.skip(1));
        assert(pair_assigns(opts, 0, keys[0], values[0]));
        assert forall|i: int| 0 <= i < later.len() implies pair_assigns(
            rest,
            i,
            #[trigger] later[i],
            given[i],
        ) by {
            assert(pair_assigns(opts, i + 1, keys[i + 1], values[i + 1]));
        }
        any_number_of_assignments_can_be_persisted(rest, later, given);
        every_assignment_can_be_persisted(opts[1], keys[0], values[0], rest);
        assert(opts =~= seq![encode_utf8("-p"@), opts[1]] + rest);
    }
}

/// All else is refused, and the refusal names the first word that is at fault: a word
/// where `-p` should stand, a `-p` with nothing behind it, or a word behind `-p` that is
/// no `KEY=VALUE`.
pub proof fn nothing_but_assignments_can_be_persisted(word: Seq<u8>, rest: Seq<Seq<u8>>)
    ensures
        unsupported(Seq::empty()) is None,
        word != encode_utf8("-p"@) ==> unsupported(seq![word] + rest) == Some(word),
        unsupported(seq![encode_utf8("-p"@)]) == Some(encode_utf8("-p"@)),
        (forall|key: Seq<u8>, value: Seq<u8>| !#[trigger] assigns(word, key, value))
            ==> unsupported(seq![encode_utf8("-p"@), word] + rest) == Some(word),
{
    if setting(word) {
        let (key, value) = lemma_setting_is_assignment(word);
        assert(assigns(word, key, value));
    }
}

/// The settings of a unit file are one line each, in the order of the overrides: one
/// override more is one line more.
pub proof fn settings_are_one_line_each(opts: Seq<Seq<u8>>, option: Seq<u8>, word: Seq<u8>)
    requires
        opts.len() % 2 == 0,
    ensures
        setting_lines(Seq::empty()) == Seq::<u8>::empty(),
        setting_lines(opts + seq![option, word]) == setting_lines(opts) + word + seq![10u8],
    decreases opts.len(),
{
    let more = opts + seq![option, word];
    if opts.len() == 0 {
        assert(more.skip(2) =~= Seq::empty());
        assert(setting_lines(more.skip(2)) =~= Seq::empty());
        assert(setting_lines(more) =~= setting_lines(opts) + word + seq![10u8]);
    } else {
        let rest = opts.skip(2);
        settings_are_one_line_each(rest, option, word);
        assert(more.skip(2) =~= rest + seq![option, word]);
        assert(setting_lines(more) =~= setting_lines(opts) + word + seq![10u8]);
    }
}

proof fn lemma_escaped_sum(a: Seq<u8>, b: Seq<u8>)
    ensures
        escaped(a + b) == escaped(a) + escaped(b),
    decreases a.len(),
{
    if a.len() == 0 {
        assert(a + b =~= b);
        assert(escaped(a) + escaped(b) =~= escaped(b));
    } else {
        lemma_escaped_sum(a.skip(1), b);
        assert((a + b).skip(1) =~= a.skip(1) + b);
        assert(escaped(a + b) =~= escaped(a) + escaped(b));
    }
}

/// The sixteen hexadecimal digits, lower case.
pub open spec fn hex_char(n: int) -> char {
    "0123456789abcdef"@[n]
}

/// Between the quotes, each byte of a word stands by itself and in order: `\` and `"`
/// behind a backslash, `%` twice, a control byte as `\x` and two hexadecimal digits, and
/// every other byte as it is.
pub proof fn each_byte_is_quoted_by_itself(word: Seq<u8>, b: u8)
    ensures
        escaped(Seq::empty()) == Seq::<u8>::empty(),
        escaped(word.push(b)) == escaped(word) + escaped(seq![b]),
        b == 92 ==> escaped(seq![b]) == seq![92u8, 92u8],
        b == 34 ==> escaped(seq![b]) == seq![92u8, 34u8],
        b == 37 ==> escaped(seq![b]) == seq![37u8, 37u8],
        b < 32 || b == 127 ==> escaped(seq![b]) == seq![
            92u8,
            120u8,
            hex_char(b as int / 16) as u8,
            hex_char(b as int % 16) as u8,
        ],
        b >= 32 && b != 127 && b != 92 && b != 34 && b != 37 ==> escaped(seq![b]) == seq![b],
{
    lemma_escaped_sum(word, seq![b]);
    assert(word.push(b) =~= word + seq![b]);
    assert(seq![b].skip(1) =~= Seq::empty());
    assert(escaped(seq![b].skip(1)) =~= Seq::empty());
    assert(escaped(seq![b]) =~= escaped_byte(b));
    reveal_strlit("0123456789abcdef");
    let high = b / 16;
    let low = b % 16;
    assert(high < 16 && low < 16);
    assert(hex_digit(high) == hex_char(high as int) as u8);
    assert(hex_digit(low) == hex_char(low as int) as u8);
}

/// The value of `ExecStart=` is the words of the command in order, each in double
/// quotes, with one space between: one word more is one quoted word more.
pub proof fn every_word_is_quoted_in_order(command: Seq<Seq<u8>>, word: Seq<u8>)
    ensures
        exec_line(seq![word]) == seq![34u8] + escaped(word) + seq![34u8],
        command.len() > 0 ==> exec_line(command.push(word)) == exec_line(command) + seq![32u8]
            + exec_line(seq![word]),
    decreases command.len(),
{
    if command.len() > 0 {
        let more = command.push(word);
        let rest = command.skip(1);
        assert(more.skip(1) =~= rest.push(word));
        every_word_is_quoted_in_order(rest, word);
        if rest.len() == 0 {
            assert(rest.push(word) =~= seq![word]);
        }
        assert(exec_line(more) =~= exec_line(command) + seq![32u8] + exec_line(seq![word]));
    }
}

/// A unit file is these lines and no others: the description, the command, a line for
/// each override, and the boot hook.
pub proof fn unit_files_are_spelled_out(name: Seq<char>, spec: RunSpecView)
    ensures
        unit_text(name, spec) == encode_utf8("[Unit]\nDescription=bgrun job "@) + encode_utf8(name)
            + encode_utf8("\n\n[Service]\nExecStart="@) + exec_line(spec.command) + seq![10u8]
            + setting_lines(spec.systemd_opts) + encode_utf8(
            "\n[Install]\nWantedBy=default.target\n"@,
        ),
{
    let head = encode_utf8("[Unit]\nDescription=bgrun job "@) + encode_utf8(name) + encode_utf8(
        "\n\n[Service]\nExecStart="@,
    );
    let line = exec_line(spec.command);
    assert(head + line.push(LF) =~= head + line + seq![10u8]);
}

} // verus!
