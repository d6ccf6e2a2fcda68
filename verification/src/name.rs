//! Unit naming: the prefix and the job names that unit names are built from.

use vstd::prelude::*;

use crate::error::{ParseError, ParseErrorView};
use crate::path::{
    adds_no_name, base_name, base_name_is_the_last_name, file_name, no_name_no_base_name,
};
use crate::text::{chars_of, concat3, lossy, string_of, text_of, words};

verus! {

/// `[A-Za-z0-9]`
pub open spec fn ascii_alphanumeric(c: char) -> bool {
    'A' <= c <= 'Z' || 'a' <= c <= 'z' || '0' <= c <= '9'
}

/// `[A-Za-z0-9_-]`
pub open spec fn prefix_char(c: char) -> bool {
    ascii_alphanumeric(c) || c == '-' || c == '_'
}

/// `[A-Za-z0-9:_.-]`
pub open spec fn job_char(c: char) -> bool {
    ascii_alphanumeric(c) || c == ':' || c == '_' || c == '.' || c == '-'
}

/// What a prefix may be: not empty, and made of [`prefix_char`]s.
pub open spec fn valid_prefix(s: Seq<char>) -> bool {
    &&& s.len() > 0
    &&& forall|i: int| 0 <= i < s.len() ==> prefix_char(#[trigger] s[i])
}

/// What a job name may be: not empty, and made of [`job_char`]s.
pub open spec fn valid_job(s: Seq<char>) -> bool {
    &&& s.len() > 0
    &&& forall|i: int| 0 <= i < s.len() ==> job_char(#[trigger] s[i])
}

/// A character as it stands in a job name.
pub open spec fn sanitized_char(c: char) -> char {
    if job_char(c) {
        c
    } else {
        '-'
    }
}

/// A text as a job name: every disallowed character becomes `-`, and no text
/// becomes `job`.
pub open spec fn sanitized(text: Seq<char>) -> Seq<char> {
    if text.len() == 0 {
        "job"@
    } else {
        text.map_values(|c: char| sanitized_char(c))
    }
}

/// The job name of a command: the base name of its first word, or `job` where there
/// is none.
pub open spec fn command_name(command: Seq<Seq<u8>>) -> Seq<char> {
    if command.len() == 0 {
        "job"@
    } else {
        match file_name(command[0]) {
            Some(name) => sanitized(text_of(name)),
            None => "job"@,
        }
    }
}

/// The unit name of a job.
pub open spec fn unit_name(prefix: Seq<char>, job: Seq<char>) -> Seq<char> {
    prefix + "-"@ + job + ".service"@
}

/// The glob pattern of a prefix.
pub open spec fn unit_glob(prefix: Seq<char>) -> Seq<char> {
    prefix + "-*.service"@
}

fn is_ascii_alphanumeric(c: char) -> (res: bool)
    ensures
        res == ascii_alphanumeric(c),
{
    ('A' <= c && c <= 'Z') || ('a' <= c && c <= 'z') || ('0' <= c && c <= '9')
}

fn is_prefix_char(c: char) -> (res: bool)
    ensures
        res == prefix_char(c),
{
    is_ascii_alphanumeric(c) || c == '-' || c == '_'
}

fn is_job_char(c: char) -> (res: bool)
    ensures
        res == job_char(c),
{
    is_ascii_alphanumeric(c) || c == ':' || c == '_' || c == '.' || c == '-'
}

proof fn job_is_valid()
    ensures
        valid_job("job"@),
{
    reveal_strlit("job");
}

/// Validated unit-name prefix (`bgrun` by default, `$BGRUN_PREFIX` override).
///
/// Restricted to `[A-Za-z0-9_-]+` so that `{prefix}-*.service` stays a plain
/// glob for `systemctl list-units` / `reset-failed`, and so unit names built
/// from it are always valid systemd unit names. Parse, don't validate: an
/// invalid prefix cannot be constructed.
#[derive(Debug, PartialEq, Eq)]
pub struct Prefix(String);

impl View for Prefix {
    type V = Seq<char>;

    closed spec fn view(&self) -> Seq<char> {
        self.0@
    }
}

impl Clone for Prefix {
    fn clone(&self) -> (res: Self)
        ensures
            res@ == self@,
    {
        proof {
            use_type_invariant(self);
        }
        Prefix(self.0.clone())
    }
}

impl Prefix {
    #[verifier::type_invariant]
    spec fn well_formed(self) -> bool {
        valid_prefix(self.0@)
    }

    /// Parse a raw prefix value.
    pub fn parse(raw: &str) -> (res: Result<Self, ParseError>)
        ensures
            match res {
                Ok(prefix) => valid_prefix(raw@) && prefix@ == raw@,
                Err(error) => !valid_prefix(raw@) && error@ == (ParseErrorView::InvalidPrefix {
                    value: raw@,
                }),
            },
    {
        let chars = chars_of(raw);
        let mut ok = chars.len() > 0;
        let mut i: usize = 0;
        while ok && i < chars.len()
            invariant
                i <= chars.len(),
                chars@ == raw@,
                ok ==> chars.len() > 0,
                ok ==> forall|j: int| 0 <= j < i ==> prefix_char(#[trigger] raw@[j]),
                !ok ==> !valid_prefix(raw@),
            decreases chars.len() - i,
        {
            ok = is_prefix_char(chars[i]);
            i += 1;
        }
        if ok {
            Ok(Prefix(raw.to_owned()))
        } else {
            Err(ParseError::InvalidPrefix { value: raw.to_owned() })
        }
    }

    /// The prefix for a value of the environment variable `BGRUN_PREFIX`, which is
    /// `None` where the variable is unset or is not Unicode: then it is `bgrun`.
    pub fn from_env(value: Option<&str>) -> (res: Result<Self, ParseError>)
        ensures
            match (res, value) {
                (Ok(prefix), Some(raw)) => valid_prefix(raw@) && prefix@ == raw@,
                (Ok(prefix), None) => prefix@ == "bgrun"@,
                (Err(error), Some(raw)) => !valid_prefix(raw@) && error@ == (
                ParseErrorView::InvalidPrefix { value: raw@ }),
                (Err(_), None) => false,
            },
    {
        match value {
            Some(raw) => Self::parse(raw),
            None => {
                proof {
                    reveal_strlit("bgrun");
                }
                Self::parse("bgrun")
            },
        }
    }

    /// The prefix as text.
    pub fn as_str(&self) -> (res: &str)
        ensures
            res@ == self@,
            valid_prefix(res@),
    {
        proof {
            use_type_invariant(self);
        }
        self.0.as_str()
    }

    /// Full systemd unit name for a job.
    pub fn unit(&self, job: &JobName) -> (res: String)
        ensures
            res@ == unit_name(self@, job@),
            valid_prefix(self@),
            valid_job(job@),
    {
        proof {
            use_type_invariant(self);
            use_type_invariant(job);
        }
        let mut res = concat3(self.0.as_str(), "-", job.0.as_str());
        res.append(".service");
        res
    }

    /// Glob pattern matching every unit this prefix owns.
    pub fn glob(&self) -> (res: String)
        ensures
            res@ == unit_glob(self@),
            valid_prefix(self@),
    {
        proof {
            use_type_invariant(self);
        }
        let mut res = self.0.clone();
        res.append("-*.service");
        res
    }

    /// The prefix as an owned string.
    pub fn to_string(&self) -> (res: String)
        ensures
            res@ == self@,
            valid_prefix(res@),
    {
        proof {
            use_type_invariant(self);
        }
        self.0.clone()
    }
}

/// Sanitized job name: every character outside `[A-Za-z0-9:_.-]` becomes `-`,
/// an empty result becomes `job`. Total constructor: callers never have to
/// re-validate.
#[derive(Debug, PartialEq, Eq)]
pub struct JobName(String);

impl View for JobName {
    type V = Seq<char>;

    closed spec fn view(&self) -> Seq<char> {
        self.0@
    }
}

impl Clone for JobName {
    fn clone(&self) -> (res: Self)
        ensures
            res@ == self@,
    {
        proof {
            use_type_invariant(self);
        }
        JobName(self.0.clone())
    }
}

impl JobName {
    #[verifier::type_invariant]
    spec fn well_formed(self) -> bool {
        valid_job(self.0@)
    }

    /// The job name that a text stands for.
    pub fn from_text(text: &str) -> (res: Self)
        ensures
            res@ == sanitized(text@),
            valid_job(res@),
    {
        let chars = chars_of(text);
        if chars.len() == 0 {
            return Self::fallback();
        }
        let mut cleaned: Vec<char> = Vec::new();
        let mut i: usize = 0;
        while i < chars.len()
            invariant
                i <= chars.len(),
                cleaned.len() == i,
                forall|j: int| 0 <= j < i ==> #[trigger] cleaned[j] == sanitized_char(chars[j]),
            decreases chars.len() - i,
        {
            let c = chars[i];
            cleaned.push(
                if is_job_char(c) {
                    c
                } else {
                    '-'
                },
            );
            i += 1;
        }
        assert(cleaned@ =~= sanitized(text@));
        JobName(string_of(&cleaned))
    }

    /// The name of a job that nothing else names.
    fn fallback() -> (res: Self)
        ensures
            res@ == "job"@,
            valid_job(res@),
    {
        proof {
            job_is_valid();
        }
        JobName("job".to_owned())
    }

    /// The job name that a word of the command line stands for.
    pub fn parse(raw: &[u8]) -> (res: Self)
        ensures
            res@ == sanitized(text_of(raw@)),
            valid_job(res@),
    {
        Self::from_text(lossy(raw).as_str())
    }

    /// Derive the job name from the command's first token
    /// (`/usr/bin/make` gives `make`), falling back to `job`.
    pub fn from_command(command: &[Vec<u8>]) -> (res: Self)
        ensures
            res@ == command_name(words(command@)),
            valid_job(res@),
    {
        if command.len() == 0 {
            return Self::fallback();
        }
        match base_name(command[0].as_slice()) {
            Some(name) => Self::parse(name.as_slice()),
            None => Self::fallback(),
        }
    }

    /// The name as text.
    pub fn as_str(&self) -> (res: &str)
        ensures
            res@ == self@,
            valid_job(res@),
    {
        proof {
            use_type_invariant(self);
        }
        self.0.as_str()
    }

    /// The name as an owned string.
    pub fn to_string(&self) -> (res: String)
        ensures
            res@ == self@,
            valid_job(res@),
    {
        proof {
            use_type_invariant(self);
        }
        self.0.clone()
    }
}

// ---------------------------------------------------------------------------
// Laws
// ---------------------------------------------------------------------------

/// Every text gives a valid job name.
pub proof fn sanitized_is_valid(text: Seq<char>)
    ensures
        valid_job(sanitized(text)),
{
    job_is_valid();
}

/// A valid job name stands for itself.
pub proof fn valid_job_is_kept(job: Seq<char>)
    requires
        valid_job(job),
    ensures
        sanitized(job) == job,
{
    assert(sanitized(job) =~= job);
}

/// Sanitizing twice is sanitizing once.
pub proof fn sanitized_once_is_enough(text: Seq<char>)
    ensures
        sanitized(sanitized(text)) == sanitized(text),
{
    sanitized_is_valid(text);
    valid_job_is_kept(sanitized(text));
}

/// Every command gives a valid job name.
pub proof fn command_name_is_valid(command: Seq<Seq<u8>>)
    ensures
        valid_job(command_name(command)),
{
    job_is_valid();
    if command.len() > 0 && file_name(command[0]) is Some {
        sanitized_is_valid(text_of(file_name(command[0])->0));
    }
}

/// A unit name is made of the characters that systemd allows in unit names.
pub proof fn unit_name_is_valid(prefix: Seq<char>, job: Seq<char>)
    requires
        valid_prefix(prefix),
        valid_job(job),
    ensures
        valid_job(unit_name(prefix, job)),
{
    reveal_strlit("-");
    reveal_strlit(".service");
    let unit = unit_name(prefix, job);
    assert forall|i: int| 0 <= i < unit.len() implies job_char(#[trigger] unit[i]) by {
        if i < prefix.len() {
            assert(unit[i] == prefix[i]);
        } else if i == prefix.len() {
        } else if i < prefix.len() + 1 + job.len() {
            assert(unit[i] == job[i - prefix.len() - 1]);
        } else {
            assert(unit[i] == ".service"@[i - prefix.len() - 1 - job.len()]);
        }
    }
}

/// Under one prefix, different jobs have different units.
pub proof fn units_tell_jobs_apart(prefix: Seq<char>, a: Seq<char>, b: Seq<char>)
    requires
        unit_name(prefix, a) == unit_name(prefix, b),
    ensures
        a == b,
{
    reveal_strlit("-");
    reveal_strlit(".service");
    let (x, y) = (unit_name(prefix, a), unit_name(prefix, b));
    let start = prefix.len() as int + 1;
    assert(a =~= x.subrange(start, start + a.len()));
    assert(b =~= y.subrange(start, start + b.len()));
    assert(x.len() == start + a.len() + ".service"@.len());
    assert(y.len() == start + b.len() + ".service"@.len());
}

/// Different prefixes give one job different units.
pub proof fn units_tell_prefixes_apart(p: Seq<char>, q: Seq<char>, job: Seq<char>)
    requires
        unit_name(p, job) == unit_name(q, job),
    ensures
        p == q,
{
    let (x, y) = (unit_name(p, job), unit_name(q, job));
    assert(x.len() == p.len() + "-"@.len() + job.len() + ".service"@.len());
    assert(y.len() == q.len() + "-"@.len() + job.len() + ".service"@.len());
    assert(p =~= x.take(p.len() as int));
    assert(q =~= y.take(q.len() as int));
}

/// Characters that a glob pattern gives a meaning.
pub open spec fn glob_meta(c: char) -> bool {
    c == '*' || c == '?' || c == '[' || c == ']' || c == '\\'
}

/// The glob of a prefix is plain: its one star is all that is special in it.
pub proof fn glob_is_plain(prefix: Seq<char>)
    requires
        valid_prefix(prefix),
    ensures
        unit_glob(prefix)[prefix.len() as int + 1] == '*',
        forall|i: int|
            0 <= i < unit_glob(prefix).len() && i != prefix.len() + 1 ==> !glob_meta(
                #[trigger] unit_glob(prefix)[i],
            ),
{
    reveal_strlit("-*.service");
    let glob = unit_glob(prefix);
    assert forall|i: int|
        0 <= i < glob.len() && i != prefix.len() + 1 implies !glob_meta(
        #[trigger] glob[i],
    ) by {
        if i < prefix.len() {
            assert(glob[i] == prefix[i]);
        } else {
            assert(glob[i] == "-*.service"@[i - prefix.len()]);
        }
    }
}

/// The glob of a prefix matches every unit that the prefix owns: the unit starts
/// with what stands before the star and ends with what stands after it.
pub proof fn glob_matches_every_unit(prefix: Seq<char>, job: Seq<char>)
    ensures
        ({
            let glob = unit_glob(prefix);
            let unit = unit_name(prefix, job);
            let star = prefix.len() as int + 1;
            let tail = glob.len() - star - 1;
            &&& star + tail <= unit.len()
            &&& unit.take(star) == glob.take(star)
            &&& unit.skip(unit.len() - tail) == glob.skip(star + 1)
        }),
{
    reveal_strlit("-");
    reveal_strlit(".service");
    reveal_strlit("-*.service");
    let glob = unit_glob(prefix);
    let unit = unit_name(prefix, job);
    let star = prefix.len() as int + 1;
    let tail = glob.len() - star - 1;
    assert(unit.take(star) =~= glob.take(star));
    assert(unit.skip(unit.len() - tail) =~= glob.skip(star + 1));
}

/// `[A-Za-z0-9]`, by character.
pub open spec fn letter_or_digit(c: char) -> bool {
    ('A' <= c && c <= 'Z') || ('a' <= c && c <= 'z') || ('0' <= c && c <= '9')
}

/// Whether a name is what a text becomes as a job name: `job` for no text; else each
/// ASCII letter, digit, `:`, `_`, `.` and `-` stays at its place, and every other
/// character is replaced by `-`.
pub open spec fn stands_for(job: Seq<char>, text: Seq<char>) -> bool {
    if text.len() == 0 {
        job == "job"@
    } else {
        &&& job.len() == text.len()
        &&& forall|i: int|
            0 <= i < text.len() ==> #[trigger] job[i] == (if letter_or_digit(text[i]) || text[i]
                == ':' || text[i] == '_' || text[i] == '.' || text[i] == '-' {
                text[i]
            } else {
                '-'
            })
    }
}

/// A text has one job name, character for character.
pub proof fn job_names_keep_what_is_allowed(job: Seq<char>, text: Seq<char>)
    ensures
        stands_for(sanitized(text), text),
        stands_for(job, text) ==> job == sanitized(text),
{
    if stands_for(job, text) {
        assert(job =~= sanitized(text));
    }
}

/// A job that is not named takes the name of its program: the last name in the path of
/// the first word, whatever arguments follow.
pub proof fn commands_are_named_after_their_program(
    head: Seq<u8>,
    program: Seq<u8>,
    tail: Seq<u8>,
    arguments: Seq<Seq<u8>>,
)
    requires
        head.len() > 0 ==> head.last() == 47,
        program.len() > 0,
        forall|i: int| 0 <= i < program.len() ==> #[trigger] program[i] != 47,
        program != seq![46u8],
        program != seq![46u8, 46u8],
        adds_no_name(tail),
    ensures
        stands_for(
            command_name(seq![head + program + tail] + arguments),
            text_of(program),
        ),
{
    base_name_is_the_last_name(head, program, tail);
    job_names_keep_what_is_allowed(Seq::empty(), text_of(program));
}

/// A command whose first word holds no name is called `job`.
pub proof fn nameless_commands_are_called_job(
    head: Seq<u8>,
    tail: Seq<u8>,
    arguments: Seq<Seq<u8>>,
)
    requires
        head.len() > 0 ==> head.last() == 47,
        adds_no_name(tail),
    ensures
        command_name(Seq::empty()) == "job"@,
        command_name(seq![tail] + arguments) == "job"@,
        command_name(seq![seq![46u8] + tail] + arguments) == "job"@,
        command_name(seq![head + seq![46u8, 46u8] + tail] + arguments) == "job"@,
{
    no_name_no_base_name(tail);
    base_name_is_the_last_name(head, seq![46u8, 46u8], tail);
}

/// A prefix is accepted exactly if it is not empty and holds ASCII letters, digits, `-`
/// and `_` only.
pub proof fn prefixes_are_letters_digits_hyphens_and_underscores(raw: Seq<char>)
    ensures
        valid_prefix(raw) <==> raw.len() > 0 && forall|i: int|
            0 <= i < raw.len() ==> letter_or_digit(#[trigger] raw[i]) || raw[i] == '-' || raw[i]
                == '_',
{
    if raw.len() > 0 && forall|i: int|
        0 <= i < raw.len() ==> letter_or_digit(#[trigger] raw[i]) || raw[i] == '-' || raw[i]
            == '_' {
        assert forall|i: int| 0 <= i < raw.len() implies prefix_char(#[trigger] raw[i]) by {
            assert(letter_or_digit(raw[i]) || raw[i] == '-' || raw[i] == '_');
        }
    }
    if valid_prefix(raw) {
        assert forall|i: int| 0 <= i < raw.len() implies letter_or_digit(#[trigger] raw[i])
            || raw[i] == '-' || raw[i] == '_' by {
            assert(prefix_char(raw[i]));
        }
    }
}

/// The unit of a job is the prefix, a hyphen, the job and `.service`; the pattern of a
/// prefix has a star in place of the job.
pub proof fn units_are_spelled_out(prefix: Seq<char>, job: Seq<char>)
    ensures
        unit_name(prefix, job) == prefix + "-"@ + job + ".service"@,
        unit_glob(prefix) == prefix + "-"@ + "*"@ + ".service"@,
{
    reveal_strlit("-");
    reveal_strlit("*");
    reveal_strlit(".service");
    reveal_strlit("-*.service");
    assert(unit_glob(prefix) =~= prefix + "-"@ + "*"@ + ".service"@);
}

} // verus!
