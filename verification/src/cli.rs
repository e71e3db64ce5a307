//! The `caffeinate`-compatible command line: flags, their parsing, and how
//! they map onto assertion requests and a hold mode.
//!
//! Flags mirror the common `caffeinate` interface:
//!   -d  prevent the display from sleeping
//!   -i  prevent the system from idle sleeping
//!   -m  prevent the disk from idle sleeping
//!   -s  prevent system sleep (only on AC power, where the platform honors that)
//!   -u  declare the user is active (wakes the display, 5s default)
//!   -t <seconds>  hold the assertion for N seconds, then exit
//!   -w <pid>      hold until the given process exits
//!   [command ...] hold while running command, then exit with its status
//!
//! With no assertion flag, `-i` is assumed (same default as `caffeinate`).

use vstd::prelude::*;
use crate::{AssertionKind, AssertionRequest};

verus! {

/// The options given on the command line.
pub struct Opts {
    pub display: bool,
    pub idle_system: bool,
    pub disk: bool,
    pub system: bool,
    pub user_active: bool,
    pub timeout: Option<u64>,
    pub wait_pid: Option<i32>,
    pub command: Vec<String>,
}

/// The options, with the command as sequences of characters.
pub struct OptsView {
    pub display: bool,
    pub idle_system: bool,
    pub disk: bool,
    pub system: bool,
    pub user_active: bool,
    pub timeout: Option<u64>,
    pub wait_pid: Option<i32>,
    pub command: Seq<Seq<char>>,
}

/// The characters of each string in `v`.
pub open spec fn strings_view(v: Seq<String>) -> Seq<Seq<char>> {
    v.map_values(|s: String| s@)
}

impl View for Opts {
    type V = OptsView;

    open spec fn view(&self) -> OptsView {
        OptsView {
            display: self.display,
            idle_system: self.idle_system,
            disk: self.disk,
            system: self.system,
            user_active: self.user_active,
            timeout: self.timeout,
            wait_pid: self.wait_pid,
            command: strings_view(self.command@),
        }
    }
}

/// No flag set, no timeout, no process to wait for, no command.
pub open spec fn default_opts() -> OptsView {
    OptsView {
        display: false,
        idle_system: false,
        disk: false,
        system: false,
        user_active: false,
        timeout: None,
        wait_pid: None,
        command: Seq::empty(),
    }
}

impl Opts {
    /// The options when no flag is given.
    pub fn new() -> (o: Opts)
        ensures
            o@ == default_opts(),
    {
        let o = Opts {
            display: false,
            idle_system: false,
            disk: false,
            system: false,
            user_active: false,
            timeout: None,
            wait_pid: None,
            command: Vec::new(),
        };
        assert(o@.command =~= Seq::<Seq<char>>::empty());
        o
    }
}

impl Default for Opts {
    /// The options when no flag is given.
    fn default() -> (o: Opts)
        ensures
            o@ == default_opts(),
    {
        Opts::new()
    }
}

/// What the command line asks for.
pub enum Invocation {
    /// Show the usage text.
    Help,
    /// Show the version.
    Version,
    /// Hold assertions as the options say.
    Run(Opts),
}

/// A command line that cannot be followed.
#[derive(Debug)]
pub enum ArgError {
    /// An option that does not exist, as written (for a bundled letter, `-` and the letter).
    UnknownOption(String),
    /// An option that takes a value was last on the command line.
    MissingValue(String),
    /// The value of an option is not a number of the expected type.
    InvalidNumber { flag: String, value: String },
}

/// What the command line asks for, with strings as sequences of characters.
pub enum InvocationView {
    Help,
    Version,
    Run(OptsView),
}

/// A refused command line, with strings as sequences of characters.
pub enum ArgErrorView {
    UnknownOption(Seq<char>),
    MissingValue(Seq<char>),
    InvalidNumber { flag: Seq<char>, value: Seq<char> },
}

impl View for Invocation {
    type V = InvocationView;

    open spec fn view(&self) -> InvocationView {
        match self {
            Invocation::Help => InvocationView::Help,
            Invocation::Version => InvocationView::Version,
            Invocation::Run(o) => InvocationView::Run(o@),
        }
    }
}

impl View for ArgError {
    type V = ArgErrorView;

    open spec fn view(&self) -> ArgErrorView {
        match self {
            ArgError::UnknownOption(s) => ArgErrorView::UnknownOption(s@),
            ArgError::MissingValue(s) => ArgErrorView::MissingValue(s@),
            ArgError::InvalidNumber { flag, value } => ArgErrorView::InvalidNumber {
                flag: flag@,
                value: value@,
            },
        }
    }
}

/// The view of a parse result.
pub open spec fn parse_result_view(r: Result<Invocation, ArgError>) -> Result<
    InvocationView,
    ArgErrorView,
> {
    match r {
        Ok(i) => Ok(i@),
        Err(e) => Err(e@),
    }
}

// ---- numbers ---------------------------------------------------------------

/// `c` is an ASCII decimal digit.
pub open spec fn is_digit(c: char) -> bool {
    '0' <= c && c <= '9'
}

/// The value of the decimal digits `ds`.
pub open spec fn digits_value(ds: Seq<char>) -> int
    decreases ds.len(),
{
    if ds.len() == 0 {
        0
    } else {
        digits_value(ds.drop_last()) * 10 + (ds.last() as int - '0' as int)
    }
}

/// `ds` is a non-empty run of decimal digits.
pub open spec fn all_digits(ds: Seq<char>) -> bool {
    ds.len() > 0 && forall|i: int| 0 <= i < ds.len() ==> is_digit(#[trigger] ds[i])
}

/// `s` without one leading `+`, if it has one.
pub open spec fn unsigned_digits(s: Seq<char>) -> Seq<char> {
    if s.len() > 0 && s[0] == '+' {
        s.drop_first()
    } else {
        s
    }
}

/// The `u64` that `s` denotes as an optional `+` followed by decimal digits,
/// if it denotes one that fits.
pub open spec fn spec_parse_u64(s: Seq<char>) -> Option<u64> {
    let ds = unsigned_digits(s);
    if all_digits(ds) && digits_value(ds) <= u64::MAX {
        Some(digits_value(ds) as u64)
    } else {
        None
    }
}

/// The `i32` that `s` denotes as an optional `+` or `-` followed by decimal
/// digits, if it denotes one that fits.
pub open spec fn spec_parse_i32(s: Seq<char>) -> Option<i32> {
    if s.len() > 0 && s[0] == '-' {
        let ds = s.drop_first();
        if all_digits(ds) && -digits_value(ds) >= i32::MIN {
            Some((-digits_value(ds)) as i32)
        } else {
            None
        }
    } else {
        let ds = unsigned_digits(s);
        if all_digits(ds) && digits_value(ds) <= i32::MAX {
            Some(digits_value(ds) as i32)
        } else {
            None
        }
    }
}

/// `<u64 as FromStr>::from_str`, which accepts an optional `+` followed by
/// one or more ASCII decimal digits whose value fits in `u64`, and refuses
/// anything else (whitespace, other signs, empty strings, overflow).
#[verifier::external_body]
fn parse_u64(s: &str) -> (r: Option<u64>)
    ensures
        r == spec_parse_u64(s@),
{
    s.parse::<u64>().ok()
}

/// `<i32 as FromStr>::from_str`, which accepts an optional `+` or `-`
/// followed by one or more ASCII decimal digits whose value fits in `i32`,
/// and refuses anything else.
#[verifier::external_body]
fn parse_i32(s: &str) -> (r: Option<i32>)
    ensures
        r == spec_parse_i32(s@),
{
    s.parse::<i32>().ok()
}

// ---- parsing ---------------------------------------------------------------

/// `arg` is an option: it starts with `-` and is not `-` alone.
pub open spec fn is_option(arg: Seq<char>) -> bool {
    arg.len() > 1 && arg[0] == '-'
}

/// `arg` starts with `--`.
pub open spec fn is_long(arg: Seq<char>) -> bool {
    arg.len() >= 2 && arg[0] == '-' && arg[1] == '-'
}

/// `c` is one of the assertion flags `d`, `i`, `m`, `s`, `u`.
pub open spec fn is_assertion_flag(c: char) -> bool {
    c == 'd' || c == 'i' || c == 'm' || c == 's' || c == 'u'
}

/// `o` with the assertion flag `c` set.
pub open spec fn with_flag(o: OptsView, c: char) -> OptsView {
    if c == 'd' {
        OptsView { display: true, ..o }
    } else if c == 'i' {
        OptsView { idle_system: true, ..o }
    } else if c == 'm' {
        OptsView { disk: true, ..o }
    } else if c == 's' {
        OptsView { system: true, ..o }
    } else {
        OptsView { user_active: true, ..o }
    }
}

/// `o` with `value` taken as the value of `-t` (when `c` is `t`) or `-w`.
pub open spec fn with_value(o: OptsView, c: char, value: Seq<char>) -> Result<OptsView, ArgErrorView> {
    if c == 't' {
        match spec_parse_u64(value) {
            Some(n) => Ok(OptsView { timeout: Some(n), ..o }),
            None => Err(ArgErrorView::InvalidNumber { flag: "-t"@, value }),
        }
    } else {
        match spec_parse_i32(value) {
            Some(n) => Ok(OptsView { wait_pid: Some(n), ..o }),
            None => Err(ArgErrorView::InvalidNumber { flag: "-w"@, value }),
        }
    }
}

/// `o` with `args` appended to its command.
pub open spec fn with_command(o: OptsView, args: Seq<Seq<char>>) -> OptsView {
    OptsView { command: o.command + args, ..o }
}

/// The outcome of parsing `args` when the options so far are `o`.
pub open spec fn parse_opts(args: Seq<Seq<char>>, o: OptsView) -> Result<InvocationView, ArgErrorView>
    decreases args.len(), 0nat,
{
    if args.len() == 0 {
        Ok(InvocationView::Run(o))
    } else {
        let arg = args[0];
        let rest = args.drop_first();
        if o.command.len() == 0 && is_option(arg) {
            if arg == "-h"@ || arg == "--help"@ {
                Ok(InvocationView::Help)
            } else if arg == "-V"@ || arg == "--version"@ {
                Ok(InvocationView::Version)
            } else if arg == "-t"@ || arg == "-w"@ {
                let c = if arg == "-t"@ {
                    't'
                } else {
                    'w'
                };
                if rest.len() == 0 {
                    Err(ArgErrorView::MissingValue(arg))
                } else {
                    match with_value(o, c, rest[0]) {
                        Ok(o2) => parse_opts(rest.drop_first(), o2),
                        Err(e) => Err(e),
                    }
                }
            } else if arg == "--"@ {
                Ok(InvocationView::Run(with_command(o, rest)))
            } else if is_long(arg) {
                Err(ArgErrorView::UnknownOption(arg))
            } else {
                parse_cluster(arg.drop_first(), rest, o)
            }
        } else {
            Ok(InvocationView::Run(with_command(o, args)))
        }
    }
}

/// The outcome of parsing the letters `cs` of a bundle of short flags,
/// followed by `rest`, when the options so far are `o`.
pub open spec fn parse_cluster(cs: Seq<char>, rest: Seq<Seq<char>>, o: OptsView) -> Result<
    InvocationView,
    ArgErrorView,
>
    decreases rest.len(), cs.len() + 1,
{
    if cs.len() == 0 {
        parse_opts(rest, o)
    } else {
        let c = cs[0];
        let tail = cs.drop_first();
        if is_assertion_flag(c) {
            parse_cluster(tail, rest, with_flag(o, c))
        } else if c == 't' || c == 'w' {
            if tail.len() > 0 {
                match with_value(o, c, tail) {
                    Ok(o2) => parse_opts(rest, o2),
                    Err(e) => Err(e),
                }
            } else if rest.len() == 0 {
                Err(ArgErrorView::MissingValue("-"@ + seq![c]))
            } else {
                match with_value(o, c, rest[0]) {
                    Ok(o2) => parse_opts(rest.drop_first(), o2),
                    Err(e) => Err(e),
                }
            }
        } else {
            Err(ArgErrorView::UnknownOption("-"@ + seq![c]))
        }
    }
}

/// The outcome of parsing the whole command line `args` (without the program name).
pub open spec fn parse_command_line(args: Seq<Seq<char>>) -> Result<InvocationView, ArgErrorView> {
    parse_opts(args, default_opts())
}

/// `s` and `lit` hold the same characters.
fn is_exactly(s: &str, lit: &str) -> (b: bool)
    ensures
        b == (s@ == lit@),
{
    let n = s.unicode_len();
    if n != lit.unicode_len() {
        return false;
    }
    let mut i: usize = 0;
    while i < n
        invariant
            n == s@.len(),
            n == lit@.len(),
            i <= n,
            forall|k: int| 0 <= k < i ==> s@[k] == lit@[k],
        decreases n - i,
    {
        if s.get_char(i) != lit.get_char(i) {
            return false;
        }
        i = i + 1;
    }
    assert(s@ =~= lit@);
    true
}

/// Append `args[from..]` to `command`.
fn append_rest(command: &mut Vec<String>, args: &Vec<String>, from: usize)
    requires
        from <= args@.len(),
    ensures
        strings_view(final(command)@) == strings_view(old(command)@) + strings_view(args@).skip(
            from as int,
        ),
{
    let n = args.len();
    let mut i = from;
    while i < n
        invariant
            n == args@.len(),
            from <= i <= n,
            strings_view(command@) == strings_view(old(command)@) + strings_view(args@).subrange(
                from as int,
                i as int,
            ),
        decreases n - i,
    {
        let a = args[i].clone();
        let ghost prev = command@;
        command.push(a);
        assert(strings_view(command@) =~= strings_view(prev).push(args@[i as int]@));
        assert(strings_view(args@).subrange(from as int, i + 1) =~= strings_view(args@).subrange(
            from as int,
            i as int,
        ).push(args@[i as int]@));
        assert(strings_view(command@) =~= strings_view(old(command)@) + strings_view(
            args@,
        ).subrange(from as int, i + 1));
        i = i + 1;
    }
    assert(strings_view(args@).subrange(from as int, n as int) =~= strings_view(args@).skip(
        from as int,
    ));
}

/// Take `value` as the value of `-t` (when `c` is `t`) or `-w`.
fn apply_value(opts: Opts, c: char, value: &str) -> (r: Result<Opts, ArgError>)
    requires
        c == 't' || c == 'w',
    ensures
        match with_value(opts@, c, value@) {
            Ok(o2) => r matches Ok(o3) && o3@ == o2,
            Err(e) => r matches Err(e2) && e2@ == e,
        },
{
    let mut o = opts;
    if c == 't' {
        match parse_u64(value) {
            Some(n) => {
                o.timeout = Some(n);
                Ok(o)
            },
            None => Err(
                ArgError::InvalidNumber {
                    flag: String::from_str("-t"),
                    value: String::from_str(value),
                },
            ),
        }
    } else {
        match parse_i32(value) {
            Some(n) => {
                o.wait_pid = Some(n);
                Ok(o)
            },
            None => Err(
                ArgError::InvalidNumber {
                    flag: String::from_str("-w"),
                    value: String::from_str(value),
                },
            ),
        }
    }
}

/// `-` followed by the character at position `j` of `s`.
fn dash_and_char(s: &str, j: usize) -> (r: String)
    requires
        j < s@.len() <= usize::MAX,
    ensures
        r@ == "-"@ + seq![s@[j as int]],
{
    let mut r = String::from_str("-");
    let c = s.substring_char(j, j + 1);
    assert(c@ =~= seq![s@[j as int]]);
    r.append(c);
    r
}

/// Parse the bundle of short flags `arg` (which starts with `-`), whose
/// arguments continue at `args[next..]`; on success, return where the
/// arguments continue after the bundle and the options so far.
fn apply_cluster(arg: &str, args: &Vec<String>, next: usize, opts: Opts) -> (r: Result<
    (usize, Opts),
    ArgError,
>)
    requires
        arg@.len() > 1,
        next <= args@.len(),
    ensures
        match r {
            Ok((k, o2)) => next <= k <= args@.len() && parse_cluster(
                arg@.drop_first(),
                strings_view(args@).skip(next as int),
                opts@,
            ) == parse_opts(strings_view(args@).skip(k as int), o2@),
            Err(e) => parse_cluster(arg@.drop_first(), strings_view(args@).skip(next as int), opts@)
                == Err::<InvocationView, ArgErrorView>(e@),
        },
{
    let ghost av = strings_view(args@);
    let ghost rest = av.skip(next as int);
    let ghost goal = parse_cluster(arg@.drop_first(), rest, opts@);
    let n = arg.unicode_len();
    let mut o = opts;
    let mut j: usize = 1;
    while j < n
        invariant
            n == arg@.len(),
            1 <= j <= n,
            next <= args@.len(),
            av == strings_view(args@),
            rest == av.skip(next as int),
            parse_cluster(arg@.skip(j as int), rest, o@) == goal,
            goal == parse_cluster(arg@.drop_first(), rest, opts@),
        decreases n - j,
    {
        let c = arg.get_char(j);
        let ghost cs = arg@.skip(j as int);
        assert(cs[0] == c);
        assert(cs.drop_first() =~= arg@.skip(j + 1));
        if c == 'd' || c == 'i' || c == 'm' || c == 's' || c == 'u' {
            if c == 'd' {
                o.display = true;
            } else if c == 'i' {
                o.idle_system = true;
            } else if c == 'm' {
                o.disk = true;
            } else if c == 's' {
                o.system = true;
            } else {
                o.user_active = true;
            }
            j = j + 1;
        } else if c == 't' || c == 'w' {
            if j + 1 < n {
                let value = arg.substring_char(j + 1, n);
                assert(value@ =~= cs.drop_first());
                match apply_value(o, c, value) {
                    Ok(o2) => {
                        return Ok((next, o2));
                    },
                    Err(e) => {
                        return Err(e);
                    },
                }
            } else if next >= args.len() {
                return Err(ArgError::MissingValue(dash_and_char(arg, j)));
            } else {
                assert(rest[0] == args@[next as int]@);
                assert(rest.drop_first() =~= av.skip(next + 1));
                match apply_value(o, c, args[next].as_str()) {
                    Ok(o2) => {
                        return Ok((next + 1, o2));
                    },
                    Err(e) => {
                        return Err(e);
                    },
                }
            }
        } else {
            return Err(ArgError::UnknownOption(dash_and_char(arg, j)));
        }
    }
    assert(arg@.skip(n as int).len() == 0);
    Ok((next, o))
}

/// Parse the command line `args` (without the program name).
///
/// `arg` is a bundle of assertion flags: `-` followed by one or more of
/// `d`, `i`, `m`, `s`, `u`.
pub open spec fn is_flag_cluster(arg: Seq<char>) -> bool {
    &&& arg.len() >= 2
    &&& arg[0] == '-'
    &&& forall|j: int| 1 <= j < arg.len() ==> is_assertion_flag(#[trigger] arg[j])
}

/// The letter `c` occurs in some argument of `args`.
pub open spec fn mentions(args: Seq<Seq<char>>, c: char) -> bool {
    exists|i: int| 0 <= i < args.len() && #[trigger] args[i].contains(c)
}

/// `o` with each assertion flag also set when its letter occurs in `args`.
pub open spec fn with_mentioned_flags(o: OptsView, args: Seq<Seq<char>>) -> OptsView {
    OptsView {
        display: o.display || mentions(args, 'd'),
        idle_system: o.idle_system || mentions(args, 'i'),
        disk: o.disk || mentions(args, 'm'),
        system: o.system || mentions(args, 's'),
        user_active: o.user_active || mentions(args, 'u'),
        ..o
    }
}

/// `o` with each assertion flag also set when its letter occurs in `letters`.
pub open spec fn with_letter_flags(o: OptsView, letters: Seq<char>) -> OptsView {
    OptsView {
        display: o.display || letters.contains('d'),
        idle_system: o.idle_system || letters.contains('i'),
        disk: o.disk || letters.contains('m'),
        system: o.system || letters.contains('s'),
        user_active: o.user_active || letters.contains('u'),
        ..o
    }
}

/// Setting the flags of `letters` one by one sets exactly the flags whose
/// letters occur in `letters`, and changes nothing else.
proof fn lemma_with_flags_sets_letters(o: OptsView, letters: Seq<char>)
    requires
        all_assertion_flags(letters),
    ensures
        with_flags(o, letters) == with_letter_flags(o, letters),
    decreases letters.len(),
{
    if letters.len() == 0 {
        assert(with_letter_flags(o, letters) == o);
    } else {
        let c = letters[0];
        let tail = letters.drop_first();
        assert(is_assertion_flag(c));
        assert(all_assertion_flags(tail)) by {
            assert forall|i: int| 0 <= i < tail.len() implies is_assertion_flag(#[trigger] tail[i]) by {
                assert(tail[i] == letters[i + 1]);
            }
        }
        lemma_with_flags_sets_letters(with_flag(o, c), tail);
        assert forall|x: char| #[trigger] letters.contains(x) <==> (c == x || tail.contains(x)) by {
            if letters.contains(x) && c != x {
                let k = choose|k: int| 0 <= k < letters.len() && letters[k] == x;
                assert(tail[k - 1] == x);
            }
            if tail.contains(x) {
                let k = choose|k: int| 0 <= k < tail.len() && tail[k] == x;
                assert(letters[k + 1] == x);
            }
            if c == x {
                assert(letters[0] == x);
            }
        }
        assert(with_letter_flags(with_flag(o, c), tail) == with_letter_flags(o, letters));
    }
}

/// A bundle that starts with assertion flags sets them, then goes on with
/// the rest of the bundle.
proof fn lemma_cluster_prefix_of_flags(
    letters: Seq<char>,
    tail: Seq<char>,
    rest: Seq<Seq<char>>,
    o: OptsView,
)
    requires
        all_assertion_flags(letters),
    ensures
        parse_cluster(letters + tail, rest, o) == parse_cluster(tail, rest, with_flags(o, letters)),
    decreases letters.len(),
{
    if letters.len() > 0 {
        let c = letters[0];
        assert(is_assertion_flag(c));
        assert((letters + tail)[0] == c);
        assert((letters + tail).drop_first() =~= letters.drop_first() + tail);
        assert(all_assertion_flags(letters.drop_first())) by {
            assert forall|i: int| 0 <= i < letters.drop_first().len() implies is_assertion_flag(
                #[trigger] letters.drop_first()[i],
            ) by {
                assert(letters.drop_first()[i] == letters[i + 1]);
            }
        }
        lemma_cluster_prefix_of_flags(letters.drop_first(), tail, rest, with_flag(o, c));
    } else {
        assert(letters + tail =~= tail);
    }
}

/// In a bundle of assertion flags that ends in `t` (or `w`), the value is
/// the next argument, and that argument is consumed: the command line means
/// the same as the flags given one by one followed by `-t value` (or
/// `-w value`). In particular the value never becomes part of the command:
/// with nothing after it, a value that is a number gives a run with no
/// command and that number as the timeout (or the process to wait for).
pub proof fn law_bundled_value_takes_next_argument(
    letters: Seq<char>,
    c: char,
    value: Seq<char>,
    rest: Seq<Seq<char>>,
)
    requires
        all_assertion_flags(letters),
        c == 't' || c == 'w',
    ensures
        parse_command_line(seq!["-"@ + letters + seq![c], value] + rest) == parse_command_line(
            separate_flags(letters) + seq!["-"@ + seq![c], value] + rest,
        ),
        rest.len() == 0 && c == 't' && spec_parse_u64(value) is Some ==> (parse_command_line(
            seq!["-"@ + letters + seq![c], value] + rest,
        ) matches Ok(InvocationView::Run(o)) && o.command.len() == 0 && o.timeout == spec_parse_u64(
            value,
        ) && o.wait_pid is None),
        rest.len() == 0 && c == 'w' && spec_parse_i32(value) is Some ==> (parse_command_line(
            seq!["-"@ + letters + seq![c], value] + rest,
        ) matches Ok(InvocationView::Run(o)) && o.command.len() == 0 && o.wait_pid == spec_parse_i32(
            value,
        ) && o.timeout is None),
{
    reveal_strlit("-");
    reveal_strlit("-h");
    reveal_strlit("--help");
    reveal_strlit("-V");
    reveal_strlit("--version");
    reveal_strlit("-t");
    reveal_strlit("-w");
    reveal_strlit("--");
    let o = default_opts();
    let bundle = "-"@ + letters + seq![c];
    let flag = "-"@ + seq![c];
    let tail = seq![value] + rest;
    let left = seq![bundle, value] + rest;
    let right_rest = seq![flag, value] + rest;
    let right = separate_flags(letters) + right_rest;
    let o1 = with_flags(o, letters);
    lemma_with_flags_sets_letters(o, letters);
    // The right-hand side: the separate flags, then `-t value` as a whole option.
    lemma_separate_flags(letters, right_rest, o);
    assert(right_rest[0] == flag);
    assert(right_rest.drop_first() =~= tail);
    assert(tail[0] == value);
    assert(tail.drop_first() =~= rest);
    if c == 't' {
        assert(flag =~= "-t"@);
    } else {
        assert(flag =~= "-w"@);
        assert(flag[1] != "-t"@[1]);
    }
    assert(right =~= separate_flags(letters) + seq![flag, value] + rest);
    assert(flag != "-h"@ && flag != "-V"@) by {
        assert(flag[1] != "-h"@[1]);
        assert(flag[1] != "-V"@[1]);
    }
    assert(flag != "--help"@ && flag != "--version"@) by {
        assert(flag.len() != "--help"@.len());
        assert(flag.len() != "--version"@.len());
    }
    assert(parse_opts(right_rest, o1) == match with_value(o1, c, value) {
        Ok(o2) => parse_opts(rest, o2),
        Err(e) => Err(e),
    });
    // The left-hand side: one bundle, whose last letter takes the next argument.
    assert(left[0] == bundle);
    assert(left.drop_first() =~= tail);
    assert(bundle.drop_first() =~= letters + seq![c]);
    if letters.len() > 0 {
        assert(bundle[1] == letters[0]);
        assert(is_assertion_flag(letters[0]));
        lemma_not_whole_option(bundle);
        assert(parse_opts(left, o) == parse_cluster(letters + seq![c], tail, o));
        lemma_cluster_prefix_of_flags(letters, seq![c], tail, o);
        assert(seq![c].drop_first() =~= Seq::<char>::empty());
        assert(parse_cluster(seq![c], tail, o1) == match with_value(o1, c, value) {
            Ok(o2) => parse_opts(rest, o2),
            Err(e) => Err(e),
        });
    } else {
        assert(bundle =~= flag);
        assert(separate_flags(letters) + right_rest =~= right_rest);
        assert(o1 == o);
    }
    if rest.len() == 0 {
        assert(parse_opts(rest, with_value(o1, c, value)->Ok_0) == Ok::<InvocationView, ArgErrorView>(
            InvocationView::Run(with_value(o1, c, value)->Ok_0),
        ));
    }
}

/// A run of flag bundles, parsed from options `o` that hold no command yet,
/// sets exactly the flags whose letters occur in them and nothing else.
proof fn lemma_flag_clusters(args: Seq<Seq<char>>, o: OptsView)
    requires
        forall|i: int| 0 <= i < args.len() ==> is_flag_cluster(#[trigger] args[i]),
        o.command.len() == 0,
    ensures
        parse_opts(args, o) == Ok::<InvocationView, ArgErrorView>(
            InvocationView::Run(with_mentioned_flags(o, args)),
        ),
    decreases args.len(),
{
    if args.len() == 0 {
        assert(with_mentioned_flags(o, args) == o);
    } else {
        let arg = args[0];
        let rest = args.drop_first();
        let letters = arg.drop_first();
        assert(is_flag_cluster(arg));
        assert(is_assertion_flag(arg[1]));
        lemma_not_whole_option(arg);
        assert(all_assertion_flags(letters)) by {
            assert forall|i: int| 0 <= i < letters.len() implies is_assertion_flag(#[trigger] letters[i]) by {
                assert(letters[i] == arg[i + 1]);
            }
        }
        assert(parse_opts(args, o) == parse_cluster(letters, rest, o));
        lemma_cluster_of_flags(letters, rest, o);
        lemma_with_flags_sets_letters(o, letters);
        let o2 = with_flags(o, letters);
        assert(forall|i: int| 0 <= i < rest.len() ==> #[trigger] rest[i] == args[i + 1]);
        lemma_flag_clusters(rest, o2);
        assert forall|x: char| is_assertion_flag(x) implies (#[trigger] mentions(args, x) <==> (
        letters.contains(x) || mentions(rest, x))) by {
            if mentions(args, x) {
                let i = choose|i: int| 0 <= i < args.len() && #[trigger] args[i].contains(x);
                if i == 0 {
                    let k = choose|k: int| 0 <= k < arg.len() && arg[k] == x;
                    assert(k != 0);
                    assert(letters[k - 1] == x);
                } else {
                    assert(rest[i - 1] == args[i]);
                }
            }
            if letters.contains(x) {
                let k = choose|k: int| 0 <= k < letters.len() && letters[k] == x;
                assert(arg[k + 1] == x);
                assert(args[0].contains(x));
            }
            if mentions(rest, x) {
                let i = choose|i: int| 0 <= i < rest.len() && #[trigger] rest[i].contains(x);
                assert(args[i + 1] == rest[i]);
            }
        }
        assert(is_assertion_flag('d') && is_assertion_flag('i') && is_assertion_flag('m')
            && is_assertion_flag('s') && is_assertion_flag('u'));
        assert(mentions(args, 'd') == (letters.contains('d') || mentions(rest, 'd')));
        assert(mentions(args, 'i') == (letters.contains('i') || mentions(rest, 'i')));
        assert(mentions(args, 'm') == (letters.contains('m') || mentions(rest, 'm')));
        assert(mentions(args, 's') == (letters.contains('s') || mentions(rest, 's')));
        assert(mentions(args, 'u') == (letters.contains('u') || mentions(rest, 'u')));
        assert(with_mentioned_flags(o2, rest) == with_mentioned_flags(o, args));
    }
}

/// A command line made only of flag bundles (`-d`, `-di`, `-dimsu`, ...)
/// runs with exactly the flags whose letters occur in it: no command, no
/// timeout, no process to wait for.
pub proof fn law_flag_clusters_set_exactly_their_letters(args: Seq<Seq<char>>)
    requires
        forall|i: int| 0 <= i < args.len() ==> is_flag_cluster(#[trigger] args[i]),
    ensures
        parse_command_line(args) == Ok::<InvocationView, ArgErrorView>(
            InvocationView::Run(with_mentioned_flags(default_opts(), args)),
        ),
{
    lemma_flag_clusters(args, default_opts());
}

/// The letter `c` occurs in `a + b` exactly when it occurs in `a` or in `b`.
proof fn lemma_mentions_concat(a: Seq<Seq<char>>, b: Seq<Seq<char>>, c: char)
    ensures
        mentions(a + b, c) == (mentions(a, c) || mentions(b, c)),
{
    let ab = a + b;
    if mentions(ab, c) {
        let i = choose|i: int| 0 <= i < ab.len() && #[trigger] ab[i].contains(c);
        if i < a.len() {
            assert(a[i] == ab[i]);
        } else {
            assert(b[i - a.len()] == ab[i]);
        }
    }
    if mentions(a, c) {
        let i = choose|i: int| 0 <= i < a.len() && #[trigger] a[i].contains(c);
        assert(ab[i] == a[i]);
    }
    if mentions(b, c) {
        let i = choose|i: int| 0 <= i < b.len() && #[trigger] b[i].contains(c);
        assert(ab[i + a.len()] == b[i]);
    }
}

/// Flag bundles may come in any order: two runs of them give the same
/// outcome in either order.
pub proof fn law_flag_clusters_commute(a: Seq<Seq<char>>, b: Seq<Seq<char>>)
    requires
        forall|i: int| 0 <= i < a.len() ==> is_flag_cluster(#[trigger] a[i]),
        forall|i: int| 0 <= i < b.len() ==> is_flag_cluster(#[trigger] b[i]),
    ensures
        parse_command_line(a + b) == parse_command_line(b + a),
{
    let ab = a + b;
    let ba = b + a;
    assert forall|i: int| 0 <= i < ab.len() implies is_flag_cluster(#[trigger] ab[i]) by {
        if i < a.len() {
            assert(ab[i] == a[i]);
        } else {
            assert(ab[i] == b[i - a.len()]);
        }
    }
    assert forall|i: int| 0 <= i < ba.len() implies is_flag_cluster(#[trigger] ba[i]) by {
        if i < b.len() {
            assert(ba[i] == b[i]);
        } else {
            assert(ba[i] == a[i - b.len()]);
        }
    }
    law_flag_clusters_set_exactly_their_letters(ab);
    law_flag_clusters_set_exactly_their_letters(ba);
    lemma_mentions_concat(a, b, 'd');
    lemma_mentions_concat(b, a, 'd');
    lemma_mentions_concat(a, b, 'i');
    lemma_mentions_concat(b, a, 'i');
    lemma_mentions_concat(a, b, 'm');
    lemma_mentions_concat(b, a, 'm');
    lemma_mentions_concat(a, b, 's');
    lemma_mentions_concat(b, a, 's');
    lemma_mentions_concat(a, b, 'u');
    lemma_mentions_concat(b, a, 'u');
    assert(with_mentioned_flags(default_opts(), ab) == with_mentioned_flags(default_opts(), ba));
}

/// The first argument that is not an option begins the command, which takes
/// every argument after it; so does every argument after `--`. Short flags
/// may be bundled (`-di`), and in a bundle `-t` and `-w` take the rest of
/// the bundle as their value when there is one (`-t60`), else the next
/// argument.
pub fn parse_args_from(args: &Vec<String>) -> (r: Result<Invocation, ArgError>)
    ensures
        parse_result_view(r) == parse_command_line(strings_view(args@)),
{
    let ghost av = strings_view(args@);
    let ghost goal = parse_command_line(av);
    let n = args.len();
    let mut o = Opts::new();
    let mut i: usize = 0;
    assert(av.skip(0) =~= av);
    while i < n
        invariant
            n == args@.len(),
            i <= n,
            av == strings_view(args@),
            goal == parse_command_line(av),
            parse_opts(av.skip(i as int), o@) == goal,
        decreases n - i,
    {
        let arg = args[i].as_str();
        let ghost here = av.skip(i as int);
        assert(here[0] == arg@);
        assert(here.drop_first() =~= av.skip(i + 1));
        let len = arg.unicode_len();
        if o.command.len() == 0 && len > 1 && arg.get_char(0) == '-' {
            if is_exactly(arg, "-h") || is_exactly(arg, "--help") {
                return Ok(Invocation::Help);
            } else if is_exactly(arg, "-V") || is_exactly(arg, "--version") {
                return Ok(Invocation::Version);
            } else if is_exactly(arg, "-t") || is_exactly(arg, "-w") {
                let c = if is_exactly(arg, "-t") {
                    't'
                } else {
                    'w'
                };
                if i + 1 >= n {
                    return Err(ArgError::MissingValue(String::from_str(arg)));
                }
                assert(here.drop_first()[0] == args@[i + 1]@);
                assert(here.drop_first().drop_first() =~= av.skip(i + 2));
                match apply_value(o, c, args[i + 1].as_str()) {
                    Ok(o2) => {
                        o = o2;
                    },
                    Err(e) => {
                        return Err(e);
                    },
                }
                i = i + 2;
            } else if is_exactly(arg, "--") {
                append_rest(&mut o.command, args, i + 1);
                assert(av.skip(n as int).len() == 0);
                return Ok(Invocation::Run(o));
            } else if arg.get_char(1) == '-' {
                return Err(ArgError::UnknownOption(String::from_str(arg)));
            } else {
                match apply_cluster(arg, args, i + 1, o) {
                    Ok((k, o2)) => {
                        o = o2;
                        i = k;
                    },
                    Err(e) => {
                        return Err(e);
                    },
                }
            }
        } else {
            append_rest(&mut o.command, args, i);
            return Ok(Invocation::Run(o));
        }
    }
    assert(av.skip(n as int).len() == 0);
    Ok(Invocation::Run(o))
}

// ---- mapping flags onto assertions ----------------------------------------

/// Some assertion flag is set.
pub open spec fn any_assertion_flag(o: OptsView) -> bool {
    o.display || o.idle_system || o.disk || o.system || o.user_active
}

/// One request of `kind` with `reason` when `wanted`, else none.
pub open spec fn request_if(wanted: bool, kind: AssertionKind, reason: Seq<char>) -> Seq<
    (AssertionKind, Seq<char>),
> {
    if wanted {
        seq![(kind, reason)]
    } else {
        Seq::empty()
    }
}

/// The kinds and reasons of the requests for the options `o`, in order:
/// idle system (also when no assertion flag is set), display, disk,
/// system, user active.
pub open spec fn requested(o: OptsView) -> Seq<(AssertionKind, Seq<char>)> {
    request_if(
        o.idle_system || !any_assertion_flag(o),
        AssertionKind::IdleSystem,
        "wakeup: preventing idle system sleep"@,
    ) + request_if(o.display, AssertionKind::Display, "wakeup: preventing display sleep"@)
        + request_if(o.disk, AssertionKind::Disk, "wakeup: preventing disk idle sleep"@)
        + request_if(o.system, AssertionKind::System, "wakeup: preventing system sleep (AC only)"@)
        + request_if(o.user_active, AssertionKind::UserActive, "wakeup: user is active"@)
}

/// The kinds and reasons of `requests`.
pub open spec fn request_views(requests: Seq<AssertionRequest>) -> Seq<(AssertionKind, Seq<char>)> {
    requests.map_values(|q: AssertionRequest| (q.kind, q.reason@))
}

/// Push a request of `kind` with `reason` when `wanted`.
fn push_request_if(want: &mut Vec<AssertionRequest>, wanted: bool, kind: AssertionKind, reason: &str)
    ensures
        request_views(final(want)@) == request_views(old(want)@) + request_if(wanted, kind, reason@),
{
    let ghost before = want@;
    if wanted {
        want.push(AssertionRequest::new(kind, reason));
        assert(request_views(want@) =~= request_views(before) + request_if(wanted, kind, reason@));
    } else {
        assert(request_views(want@) =~= request_views(before) + request_if(wanted, kind, reason@));
    }
}

/// The assertion requests for the given flags: idle system sleep when `-i`
/// is given or no assertion flag is, then display, disk, system and user
/// active as their flags say.
pub fn assertion_requests(opts: &Opts) -> (r: Vec<AssertionRequest>)
    ensures
        request_views(r@) == requested(opts@),
{
    let mut want: Vec<AssertionRequest> = Vec::new();
    let any_explicit = opts.display || opts.idle_system || opts.disk || opts.system
        || opts.user_active;
    assert(request_views(want@) =~= Seq::<(AssertionKind, Seq<char>)>::empty());
    push_request_if(
        &mut want,
        opts.idle_system || !any_explicit,
        AssertionKind::IdleSystem,
        "wakeup: preventing idle system sleep",
    );
    push_request_if(
        &mut want,
        opts.display,
        AssertionKind::Display,
        "wakeup: preventing display sleep",
    );
    push_request_if(&mut want, opts.disk, AssertionKind::Disk, "wakeup: preventing disk idle sleep");
    push_request_if(
        &mut want,
        opts.system,
        AssertionKind::System,
        "wakeup: preventing system sleep (AC only)",
    );
    push_request_if(&mut want, opts.user_active, AssertionKind::UserActive, "wakeup: user is active");
    assert(request_views(want@) =~= requested(opts@));
    want
}

/// How long `-u` holds by default: 5 seconds, in nanoseconds.
pub const USER_ACTIVE_DEFAULT_HOLD: u64 = 5_000_000_000;

/// `-u` is held only briefly by default: when no timeout, process or
/// command is given.
pub open spec fn user_active_is_direct(o: OptsView) -> bool {
    o.user_active && o.timeout is None && o.wait_pid is None && o.command.len() == 0
}

/// `-u`'s default: release 5 seconds after `now`, but only in "direct" mode
/// (no explicit timeout, PID wait, or command was also given).
pub fn user_active_default_release(opts: &Opts, now: u64) -> (r: Option<u64>)
    requires
        now + USER_ACTIVE_DEFAULT_HOLD <= u64::MAX,
    ensures
        user_active_is_direct(opts@) ==> r == Some((now + USER_ACTIVE_DEFAULT_HOLD) as u64),
        !user_active_is_direct(opts@) ==> r is None,
{
    if opts.user_active && opts.timeout.is_none() && opts.wait_pid.is_none()
        && opts.command.len() == 0 {
        Some(now + USER_ACTIVE_DEFAULT_HOLD)
    } else {
        None
    }
}

/// How the assertions are held.
#[derive(Clone, Copy, Debug, PartialEq, Eq, Structural)]
pub enum HoldMode {
    /// Run the command and hold while it runs.
    RunCommand,
    /// Hold until the process with this id exits.
    WaitForPid(i32),
    /// Hold for this many seconds.
    HoldFor(u64),
    /// Hold until every assertion has expired, or the process is killed.
    UntilReleased,
}

/// A command takes precedence over a process to wait for, which takes
/// precedence over a timeout; with none of them, hold until released.
pub open spec fn hold_mode_of(o: OptsView) -> HoldMode {
    if o.command.len() > 0 {
        HoldMode::RunCommand
    } else if o.wait_pid is Some {
        HoldMode::WaitForPid(o.wait_pid->0)
    } else if o.timeout is Some {
        HoldMode::HoldFor(o.timeout->0)
    } else {
        HoldMode::UntilReleased
    }
}

/// How the options ask the assertions to be held.
pub fn hold_mode(opts: &Opts) -> (m: HoldMode)
    ensures
        m == hold_mode_of(opts@),
{
    if opts.command.len() > 0 {
        HoldMode::RunCommand
    } else if let Some(pid) = opts.wait_pid {
        HoldMode::WaitForPid(pid)
    } else if let Some(secs) = opts.timeout {
        HoldMode::HoldFor(secs)
    } else {
        HoldMode::UntilReleased
    }
}

// ---- laws of the command line ----------------------------------------------

/// `o` with every assertion flag of `letters` set, left to right.
pub open spec fn with_flags(o: OptsView, letters: Seq<char>) -> OptsView
    decreases letters.len(),
{
    if letters.len() == 0 {
        o
    } else {
        with_flags(with_flag(o, letters[0]), letters.drop_first())
    }
}

/// Each letter of `letters` as an option of its own: `-d`, `-i`, ...
pub open spec fn separate_flags(letters: Seq<char>) -> Seq<Seq<char>> {
    letters.map_values(|c: char| "-"@ + seq![c])
}

/// Every character of `letters` is an assertion flag.
pub open spec fn all_assertion_flags(letters: Seq<char>) -> bool {
    forall|i: int| 0 <= i < letters.len() ==> is_assertion_flag(#[trigger] letters[i])
}

/// `arg` is none of the options that are matched whole.
proof fn lemma_not_whole_option(arg: Seq<char>)
    requires
        arg.len() >= 2,
        arg[0] == '-',
        is_assertion_flag(arg[1]),
    ensures
        arg != "-h"@,
        arg != "--help"@,
        arg != "-V"@,
        arg != "--version"@,
        arg != "-t"@,
        arg != "-w"@,
        arg != "--"@,
        !is_long(arg),
{
    reveal_strlit("-h");
    reveal_strlit("--help");
    reveal_strlit("-V");
    reveal_strlit("--version");
    reveal_strlit("-t");
    reveal_strlit("-w");
    reveal_strlit("--");
    assert("-h"@[1] == 'h');
    assert("--help"@[1] == '-');
    assert("-V"@[1] == 'V');
    assert("--version"@[1] == '-');
    assert("-t"@[1] == 't');
    assert("-w"@[1] == 'w');
    assert("--"@[1] == '-');
}

/// A bundle of assertion flags sets each of them, then parsing goes on.
proof fn lemma_cluster_of_flags(letters: Seq<char>, rest: Seq<Seq<char>>, o: OptsView)
    requires
        all_assertion_flags(letters),
    ensures
        parse_cluster(letters, rest, o) == parse_opts(rest, with_flags(o, letters)),
    decreases letters.len(),
{
    if letters.len() > 0 {
        assert(is_assertion_flag(letters[0]));
        lemma_cluster_of_flags(letters.drop_first(), rest, with_flag(o, letters[0]));
    }
}

/// Separate assertion flags set each of them, then parsing goes on.
proof fn lemma_separate_flags(letters: Seq<char>, rest: Seq<Seq<char>>, o: OptsView)
    requires
        all_assertion_flags(letters),
        o.command.len() == 0,
    ensures
        parse_opts(separate_flags(letters) + rest, o) == parse_opts(rest, with_flags(o, letters)),
    decreases letters.len(),
{
    if letters.len() > 0 {
        let c = letters[0];
        assert(is_assertion_flag(c));
        let arg = "-"@ + seq![c];
        reveal_strlit("-");
        assert(arg.len() == 2 && arg[0] == '-' && arg[1] == c);
        lemma_not_whole_option(arg);
        let args = separate_flags(letters) + rest;
        let tail = separate_flags(letters.drop_first()) + rest;
        assert(args[0] == arg);
        assert(args.drop_first() =~= tail);
        assert(arg.drop_first() =~= seq![c]);
        assert(seq![c].drop_first() =~= Seq::<char>::empty());
        assert(with_flag(o, c).command == o.command);
        assert(parse_opts(args, o) == parse_cluster(seq![c], tail, o));
        assert(parse_cluster(seq![c], tail, o) == parse_cluster(seq![c].drop_first(), tail, with_flag(o, c)));
        assert(parse_opts(args, o) == parse_opts(tail, with_flag(o, c)));
        assert(all_assertion_flags(letters.drop_first())) by {
            assert forall|i: int| 0 <= i < letters.drop_first().len() implies is_assertion_flag(#[trigger] letters.drop_first()[i]) by {
                assert(letters.drop_first()[i] == letters[i + 1]);
            }
        }
        lemma_separate_flags(letters.drop_first(), rest, with_flag(o, c));
    } else {
        assert(separate_flags(letters) + rest =~= rest);
    }
}

/// Short flags may be bundled: `-dimsu` (any assertion flags in one
/// argument) is parsed as the same flags given one by one.
pub proof fn law_bundled_flags_are_separate_flags(
    letters: Seq<char>,
    rest: Seq<Seq<char>>,
    o: OptsView,
)
    requires
        letters.len() > 0,
        all_assertion_flags(letters),
        o.command.len() == 0,
    ensures
        parse_opts(seq!["-"@ + letters] + rest, o) == parse_opts(separate_flags(letters) + rest, o),
{
    reveal_strlit("-");
    let arg = "-"@ + letters;
    assert(arg[0] == '-' && arg[1] == letters[0]);
    assert(is_assertion_flag(letters[0]));
    lemma_not_whole_option(arg);
    let args = seq![arg] + rest;
    assert(args[0] == arg);
    assert(args.drop_first() =~= rest);
    assert(arg.drop_first() =~= letters);
    lemma_cluster_of_flags(letters, rest, o);
    lemma_separate_flags(letters, rest, o);
}

/// The first argument that is not an option begins the command: it and
/// every argument after it are the command, whatever they look like.
pub proof fn law_first_non_option_begins_command(args: Seq<Seq<char>>)
    requires
        args.len() > 0,
        !is_option(args[0]),
    ensures
        parse_command_line(args) == Ok::<InvocationView, ArgErrorView>(
            InvocationView::Run(with_command(default_opts(), args)),
        ),
{
}

/// Every argument after `--` belongs to the command, whatever it looks like.
pub proof fn law_double_dash_ends_options(rest: Seq<Seq<char>>)
    ensures
        parse_command_line(seq!["--"@] + rest) == Ok::<InvocationView, ArgErrorView>(
            InvocationView::Run(with_command(default_opts(), rest)),
        ),
{
    reveal_strlit("--");
    reveal_strlit("-h");
    reveal_strlit("--help");
    reveal_strlit("-V");
    reveal_strlit("--version");
    reveal_strlit("-t");
    reveal_strlit("-w");
    let args = seq!["--"@] + rest;
    assert(args[0] == "--"@);
    assert(args.drop_first() =~= rest);
    assert("--"@ != "-h"@) by { assert("-h"@[1] != "--"@[1]); }
    assert("--"@ != "-V"@) by { assert("-V"@[1] != "--"@[1]); }
    assert("--"@ != "-t"@) by { assert("-t"@[1] != "--"@[1]); }
    assert("--"@ != "-w"@) by { assert("-w"@[1] != "--"@[1]); }
    assert("--"@ != "--help"@) by { assert("--help"@.len() != "--"@.len()); }
    assert("--"@ != "--version"@) by { assert("--version"@.len() != "--"@.len()); }
}

/// With no assertion flag, exactly one assertion is requested: idle system
/// sleep, as `-i` would.
pub proof fn law_no_flag_means_idle_system(o: OptsView)
    requires
        !o.display,
        !o.idle_system,
        !o.disk,
        !o.system,
        !o.user_active,
    ensures
        requested(o).len() == 1,
        requested(o)[0].0 == AssertionKind::IdleSystem,
        requested(o) == seq![(AssertionKind::IdleSystem, "wakeup: preventing idle system sleep"@)],
{
    assert(requested(o) =~= seq![(AssertionKind::IdleSystem, "wakeup: preventing idle system sleep"@)]);
}

/// The requests depend on the five assertion flags only: a timeout, a
/// process to wait for or a command changes nothing of what is held.
pub proof fn law_requests_depend_only_on_assertion_flags(o1: OptsView, o2: OptsView)
    requires
        o1.display == o2.display,
        o1.idle_system == o2.idle_system,
        o1.disk == o2.disk,
        o1.system == o2.system,
        o1.user_active == o2.user_active,
    ensures
        requested(o1) == requested(o2),
{
}

/// Every requested kind carries its fixed reason, and each assertion flag
/// requests its own kind: display, disk, system and user active exactly
/// when their flags are set.
pub proof fn law_flags_request_their_kinds_with_reasons(o: OptsView)
    ensures
        o.display ==> requested(o).contains(
            (AssertionKind::Display, "wakeup: preventing display sleep"@),
        ),
        o.disk ==> requested(o).contains(
            (AssertionKind::Disk, "wakeup: preventing disk idle sleep"@),
        ),
        o.system ==> requested(o).contains(
            (AssertionKind::System, "wakeup: preventing system sleep (AC only)"@),
        ),
        o.user_active ==> requested(o).contains(
            (AssertionKind::UserActive, "wakeup: user is active"@),
        ),
        o.idle_system ==> requested(o).contains(
            (AssertionKind::IdleSystem, "wakeup: preventing idle system sleep"@),
        ),
        forall|i: int| 0 <= i < requested(o).len() ==> {
            let k = (#[trigger] requested(o)[i]).0;
            &&& k == AssertionKind::Display ==> o.display
            &&& k == AssertionKind::Disk ==> o.disk
            &&& k == AssertionKind::System ==> o.system
            &&& k == AssertionKind::UserActive ==> o.user_active
            &&& k == AssertionKind::IdleSystem ==> (o.idle_system || !(o.display || o.idle_system
                || o.disk || o.system || o.user_active))
        },
{
    let a = request_if(
        o.idle_system || !any_assertion_flag(o),
        AssertionKind::IdleSystem,
        "wakeup: preventing idle system sleep"@,
    );
    let b = request_if(o.display, AssertionKind::Display, "wakeup: preventing display sleep"@);
    let c = request_if(o.disk, AssertionKind::Disk, "wakeup: preventing disk idle sleep"@);
    let d = request_if(o.system, AssertionKind::System, "wakeup: preventing system sleep (AC only)"@);
    let e = request_if(o.user_active, AssertionKind::UserActive, "wakeup: user is active"@);
    let r = requested(o);
    assert(r == a + b + c + d + e);
    let ab = a + b;
    let abc = ab + c;
    let abcd = abc + d;
    if o.idle_system {
        assert(r[0] == a[0]);
    }
    if o.display {
        assert(r[a.len() as int] == b[0]);
    }
    if o.disk {
        assert(r[ab.len() as int] == c[0]);
    }
    if o.system {
        assert(r[abc.len() as int] == d[0]);
    }
    if o.user_active {
        assert(r[abcd.len() as int] == e[0]);
    }
    assert forall|i: int| 0 <= i < r.len() implies {
        let k = (#[trigger] r[i]).0;
        &&& k == AssertionKind::Display ==> o.display
        &&& k == AssertionKind::Disk ==> o.disk
        &&& k == AssertionKind::System ==> o.system
        &&& k == AssertionKind::UserActive ==> o.user_active
        &&& k == AssertionKind::IdleSystem ==> (o.idle_system || !(o.display || o.idle_system
            || o.disk || o.system || o.user_active))
    } by {
        if i < a.len() {
            assert(r[i] == a[i]);
        } else if i < ab.len() {
            assert(r[i] == b[i - a.len()]);
        } else if i < abc.len() {
            assert(r[i] == c[i - ab.len()]);
        } else if i < abcd.len() {
            assert(r[i] == d[i - abc.len()]);
        } else {
            assert(r[i] == e[i - abcd.len()]);
        }
    }
}

/// `-u` gets its default release exactly when no timeout, no process to
/// wait for and no command is given; the other assertion flags play no part.
pub proof fn law_user_active_default_depends_on_hold_options_only(o1: OptsView, o2: OptsView)
    requires
        o1.user_active == o2.user_active,
        o1.timeout == o2.timeout,
        o1.wait_pid == o2.wait_pid,
        o1.command == o2.command,
    ensures
        user_active_is_direct(o1) == user_active_is_direct(o2),
        user_active_is_direct(o1) == (o1.user_active && o1.timeout is None && o1.wait_pid is None
            && o1.command.len() == 0),
{
}

/// No assertion flag is silently ignored: each requested kind appears once
/// exactly when its flag is set (idle system sleep also when none is).
pub proof fn law_each_flag_requests_its_kind(o: OptsView)
    ensures
        requested(o).map_values(|q: (AssertionKind, Seq<char>)| q.0) == request_kinds(o),
{
    assert(requested(o).map_values(|q: (AssertionKind, Seq<char>)| q.0) =~= request_kinds(o));
}

/// The kinds requested for `o`, in order.
pub open spec fn request_kinds(o: OptsView) -> Seq<AssertionKind> {
    kind_if(o.idle_system || !any_assertion_flag(o), AssertionKind::IdleSystem)
        + kind_if(o.display, AssertionKind::Display)
        + kind_if(o.disk, AssertionKind::Disk)
        + kind_if(o.system, AssertionKind::System)
        + kind_if(o.user_active, AssertionKind::UserActive)
}

/// `kind` when `wanted`, else nothing.
pub open spec fn kind_if(wanted: bool, kind: AssertionKind) -> Seq<AssertionKind> {
    if wanted {
        seq![kind]
    } else {
        Seq::empty()
    }
}

} // verus!
