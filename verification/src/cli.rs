//! The command-line options of the client: `--name value` pairs.

use vstd::prelude::*;

use crate::protocol::{
    fields_problem, opt_view, status_named, unknown_status_message, Notification, Response, Status,
};
use crate::text::{chars_of, decimal, digit, owned, same_text};

verus! {

/// The texts of a list of arguments.
pub open spec fn arg_views(args: Seq<String>) -> Seq<Seq<char>> {
    args.map_values(|a: String| a@)
}

/// A text that begins with `--`.
pub open spec fn starts_with_dashes(s: Seq<char>) -> bool {
    s.len() >= 2 && s[0] == '-' && s[1] == '-'
}

/// The message for an option given twice.
pub open spec fn repeated_option_message(name: Seq<char>) -> Seq<char> {
    "option "@ + name + " may only be used once"@
}

/// The message for an option without a value.
pub open spec fn missing_value_message(name: Seq<char>) -> Seq<char> {
    "option "@ + name + " requires a value"@
}

/// The message for a required option that is absent.
pub open spec fn missing_option_message(name: Seq<char>) -> Seq<char> {
    "missing required option "@ + name
}

/// The message for a percentage out of range or no number.
pub open spec fn bad_percentage_message(name: Seq<char>) -> Seq<char> {
    name + " must be an integer from 0 to 100"@
}

/// The message for an argument that names no known option.
pub open spec fn unknown_option_message(arg: Seq<char>) -> Seq<char> {
    "unknown option "@ + arg
}

/// The message for an argument where none is expected.
pub open spec fn unexpected_argument_message(arg: Seq<char>) -> Seq<char> {
    "unexpected argument "@ + arg
}

/// Reading the arguments from position `i` on, with `found` the value seen
/// so far: an occurrence of `name` takes the next argument as its value
/// (which may not begin with `--`), may occur once only, and is skipped
/// together with its value.
pub open spec fn option_scan(
    args: Seq<Seq<char>>,
    name: Seq<char>,
    i: int,
    found: Option<Seq<char>>,
) -> Result<Option<Seq<char>>, Seq<char>>
    decreases args.len() - i,
{
    if i < 0 || i >= args.len() {
        Ok(found)
    } else if args[i] == name {
        if found is Some {
            Err(repeated_option_message(name))
        } else if i + 1 >= args.len() || starts_with_dashes(args[i + 1]) {
            Err(missing_value_message(name))
        } else {
            option_scan(args, name, i + 2, Some(args[i + 1]))
        }
    } else {
        option_scan(args, name, i + 1, found)
    }
}

/// The value of option `name` in `args`, if given, or why the arguments are
/// refused.
pub open spec fn option_value(args: Seq<Seq<char>>, name: Seq<char>) -> Result<
    Option<Seq<char>>,
    Seq<char>,
> {
    option_scan(args, name, 0, None)
}

/// The value of a required option.
pub open spec fn required_value(args: Seq<Seq<char>>, name: Seq<char>) -> Result<
    Seq<char>,
    Seq<char>,
> {
    match option_value(args, name) {
        Err(m) => Err(m),
        Ok(None) => Err(missing_option_message(name)),
        Ok(Some(v)) => Ok(v),
    }
}

/// Whether `c` is an ASCII decimal digit.
pub open spec fn is_digit(c: char) -> bool {
    '0' <= c <= '9'
}

/// The value of a digit character.
pub open spec fn digit_value(c: char) -> nat {
    ((c as u32) - ('0' as u32)) as nat
}

/// The value of a string of decimal digits.
pub open spec fn digits_value(d: Seq<char>) -> nat
    decreases d.len(),
{
    if d.len() == 0 {
        0
    } else {
        digits_value(d.drop_last()) * 10 + digit_value(d.last())
    }
}

/// A nonempty string of decimal digits.
pub open spec fn all_digits(d: Seq<char>) -> bool {
    d.len() > 0 && forall|i: int| 0 <= i < d.len() ==> is_digit(#[trigger] d[i])
}

/// What `str::parse::<u8>` gives: an optional `+`, then decimal digits of
/// a value up to 255.
pub open spec fn parse_u8_spec(s: Seq<char>) -> Option<u8> {
    let d = if s.len() > 0 && s[0] == '+' {
        s.drop_first()
    } else {
        s
    };
    if all_digits(d) && digits_value(d) <= 255 {
        Some(digits_value(d) as u8)
    } else {
        None
    }
}

/// The value of an optional percentage option.
pub open spec fn percentage_value(args: Seq<Seq<char>>, name: Seq<char>) -> Result<
    Option<u8>,
    Seq<char>,
> {
    match option_value(args, name) {
        Err(m) => Err(m),
        Ok(None) => Ok(None),
        Ok(Some(v)) => match parse_u8_spec(v) {
            Some(p) => if p <= 100 {
                Ok(Some(p))
            } else {
                Err(bad_percentage_message(name))
            },
            None => Err(bad_percentage_message(name)),
        },
    }
}

/// Looking at the arguments from position `i` on, two at a time: the first
/// one that names no option in `known`.
pub open spec fn unknown_option_from(args: Seq<Seq<char>>, known: Seq<Seq<char>>, i: int) -> Option<
    Seq<char>,
>
    decreases args.len() + 1 - i,
{
    if i < 0 || i >= args.len() {
        None
    } else if !known.contains(args[i]) {
        Some(args[i])
    } else {
        unknown_option_from(args, known, i + 2)
    }
}

/// The options `notify` takes.
pub open spec fn notify_options() -> Seq<Seq<char>> {
    seq!["--task-id"@, "--status"@, "--summary"@, "--progress"@, "--details"@]
}

/// The notification the `notify` arguments describe, as its fields (task
/// id, status, summary, details, progress), or why they are refused.
pub open spec fn notify_fields(args: Seq<Seq<char>>) -> Result<
    (Seq<char>, Status, Seq<char>, Option<Seq<char>>, Option<u8>),
    Seq<char>,
> {
    match required_value(args, "--task-id"@) {
        Err(m) => Err(m),
        Ok(task_id) => match required_value(args, "--status"@) {
            Err(m) => Err(m),
            Ok(status_text) => match status_named(status_text) {
                None => Err(unknown_status_message()),
                Some(status) => match required_value(args, "--summary"@) {
                    Err(m) => Err(m),
                    Ok(summary) => match percentage_value(args, "--progress"@) {
                        Err(m) => Err(m),
                        Ok(progress) => match option_value(args, "--details"@) {
                            Err(m) => Err(m),
                            Ok(details) => match unknown_option_from(args, notify_options(), 0) {
                                Some(a) => Err(unknown_option_message(a)),
                                None => match fields_problem(task_id, summary, details, progress) {
                                    Some(m) => Err(m),
                                    None => Ok((task_id, status, summary, details, progress)),
                                },
                            },
                        },
                    },
                },
            },
        },
    }
}

/// The usage text.
pub open spec fn usage_spec() -> Seq<char> {
    "Usage:\n  ping-agent-mail serve [--config PATH]\n  ping-agent-mail health\n  ping-agent-mail notify --task-id ID --status started|progress|completed|failed --summary TEXT [--progress 0..100] [--details TEXT]"@
}

/// A text that begins with `--`.
fn begins_with_dashes(s: &str) -> (r: bool)
    ensures
        r == starts_with_dashes(s@),
{
    let v = chars_of(s);
    v.len() >= 2 && v[0] == '-' && v[1] == '-'
}

/// "option NAME ..." messages.
fn option_message(name: &str, tail: &str) -> (m: String)
    ensures
        m@ == "option "@ + name@ + tail@,
{
    let mut m = owned("option ");
    m.append(name);
    m.append(tail);
    m
}

/// The value of option `name`, if given once with a value.
pub fn single_option(args: &[String], name: &str) -> (r: Result<Option<String>, String>)
    ensures
        match (r, option_value(arg_views(args@), name@)) {
            (Ok(Some(v)), Ok(Some(w))) => v@ == w,
            (Ok(None), Ok(None)) => true,
            (Err(m), Err(w)) => m@ == w,
            _ => false,
        },
{
    let ghost views = arg_views(args@);
    let mut found: Option<String> = None;
    let mut index: usize = 0;
    while index < args.len()
        invariant
            views == arg_views(args@),
            views.len() == args@.len(),
            index <= args@.len() + 1,
            option_value(views, name@) == option_scan(
                views,
                name@,
                index as int,
                opt_view(found),
            ),
        decreases args@.len() + 1 - index,
    {
        if same_text(args[index].as_str(), name) {
            if found.is_some() {
                return Err(option_message(name, " may only be used once"));
            }
            if index + 1 >= args.len() {
                return Err(option_message(name, " requires a value"));
            }
            if begins_with_dashes(args[index + 1].as_str()) {
                return Err(option_message(name, " requires a value"));
            }
            found = Some(owned(args[index + 1].as_str()));
            index = index + 2;
        } else {
            index = index + 1;
        }
    }
    match found {
        Some(v) => Ok(Some(v)),
        None => Ok(None),
    }
}

/// The value of a required option.
pub fn required_option(args: &[String], name: &str) -> (r: Result<String, String>)
    ensures
        match (r, required_value(arg_views(args@), name@)) {
            (Ok(v), Ok(w)) => v@ == w,
            (Err(m), Err(w)) => m@ == w,
            _ => false,
        },
{
    match single_option(args, name) {
        Err(m) => Err(m),
        Ok(Some(v)) => Ok(v),
        Ok(None) => {
            let mut m = owned("missing required option ");
            m.append(name);
            Err(m)
        },
    }
}

/// The number `str::parse::<u8>` reads from `s`, if any.
pub fn parse_u8(s: &str) -> (r: Option<u8>)
    ensures
        r == parse_u8_spec(s@),
{
    let v = chars_of(s);
    let start: usize = if v.len() > 0 && v[0] == '+' {
        1
    } else {
        0
    };
    let ghost d = if s@.len() > 0 && s@[0] == '+' {
        s@.drop_first()
    } else {
        s@
    };
    assert(d =~= v@.skip(start as int));
    if start >= v.len() {
        return None;
    }
    // The value read so far, capped at 256.
    let mut value: u32 = 0;
    let mut i: usize = start;
    while i < v.len()
        invariant
            v@ == s@,
            start <= i <= v.len(),
            d =~= v@.skip(start as int),
            d == (if s@.len() > 0 && s@[0] == '+' {
                s@.drop_first()
            } else {
                s@
            }),
            forall|j: int| start <= j < i ==> is_digit(#[trigger] v@[j]),
            value as nat == if digits_value(v@.subrange(start as int, i as int)) < 256 {
                digits_value(v@.subrange(start as int, i as int))
            } else {
                256
            },
        decreases v.len() - i,
    {
        let c = v[i];
        if !('0' <= c && c <= '9') {
            proof {
                assert(d[i - start] == c);
                assert(!is_digit(d[i - start]));
                assert(!all_digits(d));
            }
            return None;
        }
        let digit = (c as u32) - ('0' as u32);
        proof {
            let before = v@.subrange(start as int, i as int);
            let after = v@.subrange(start as int, i as int + 1);
            assert(after.drop_last() =~= before);
            assert(after.last() == c);
            assert(digits_value(after) == digits_value(before) * 10 + digit_value(c));
        }
        let next = value * 10 + digit;
        value = if next > 256 {
            256
        } else {
            next
        };
        i = i + 1;
    }
    assert(v@.subrange(start as int, v@.len() as int) =~= d);
    if value <= 255 {
        Some(value as u8)
    } else {
        None
    }
}

/// The value of an optional percentage option: an integer from 0 to 100.
pub fn optional_u8(args: &[String], name: &str) -> (r: Result<Option<u8>, String>)
    ensures
        match (r, percentage_value(arg_views(args@), name@)) {
            (Ok(v), Ok(w)) => v == w,
            (Err(m), Err(w)) => m@ == w,
            _ => false,
        },
{
    match single_option(args, name) {
        Err(m) => Err(m),
        Ok(None) => Ok(None),
        Ok(Some(value)) => {
            match parse_u8(value.as_str()) {
                Some(p) => {
                    if p <= 100 {
                        return Ok(Some(p));
                    }
                },
                None => {},
            }
            let mut m = owned(name);
            m.append(" must be an integer from 0 to 100");
            Err(m)
        },
    }
}

/// Whether `arg` is one of `known`.
fn is_known(arg: &str, known: &[&str]) -> (r: bool)
    ensures
        r == known@.map_values(|k: &str| k@).contains(arg@),
{
    let ghost names = known@.map_values(|k: &str| k@);
    let mut i: usize = 0;
    while i < known.len()
        invariant
            names == known@.map_values(|k: &str| k@),
            i <= known@.len(),
            forall|j: int| 0 <= j < i ==> names[j] != arg@,
        decreases known.len() - i,
    {
        if same_text(known[i], arg) {
            assert(names[i as int] == arg@);
            return true;
        }
        i = i + 1;
    }
    false
}

/// Refuses the first argument, looking at every other one from the first,
/// that is no option in `known`.
pub fn reject_unknown_options(args: &[String], known: &[&str]) -> (r: Result<(), String>)
    ensures
        match (r, unknown_option_from(arg_views(args@), known@.map_values(|k: &str| k@), 0)) {
            (Ok(()), None) => true,
            (Err(m), Some(a)) => m@ == unknown_option_message(a),
            _ => false,
        },
{
    let ghost views = arg_views(args@);
    let ghost names = known@.map_values(|k: &str| k@);
    let mut index: usize = 0;
    while index < args.len()
        invariant
            views == arg_views(args@),
            names == known@.map_values(|k: &str| k@),
            views.len() == args@.len(),
            index <= args@.len() + 1,
            unknown_option_from(views, names, 0) == unknown_option_from(views, names, index as int),
        decreases args@.len() + 1 - index,
    {
        if !is_known(args[index].as_str(), known) {
            let mut m = owned("unknown option ");
            m.append(args[index].as_str());
            return Err(m);
        }
        proof {
            assert(views[index as int] == args@[index as int]@);
        }
        if args.len() - index < 2 {
            proof {
                assert(unknown_option_from(views, names, index as int + 2) is None);
            }
            return Ok(());
        }
        index = index + 2;
    }
    Ok(())
}

/// Refuses any argument at all.
pub fn reject_args(args: &[String]) -> (r: Result<(), String>)
    ensures
        r is Ok <==> args@.len() == 0,
        r matches Err(m) ==> m@ == unexpected_argument_message(args@[0]@),
{
    if args.len() == 0 {
        Ok(())
    } else {
        let mut m = owned("unexpected argument ");
        m.append(args[0].as_str());
        Err(m)
    }
}

/// The usage text.
pub fn usage() -> (s: String)
    ensures
        s@ == usage_spec(),
{
    owned(
        "Usage:\n  ping-agent-mail serve [--config PATH]\n  ping-agent-mail health\n  ping-agent-mail notify --task-id ID --status started|progress|completed|failed --summary TEXT [--progress 0..100] [--details TEXT]",
    )
}

/// The notification that the arguments of `notify` describe, checked by
/// the protocol's rules, or the message that refuses the arguments.
pub fn notification_from_args(args: &[String]) -> (r: Result<Notification, String>)
    ensures
        match (r, notify_fields(arg_views(args@))) {
            (Ok(n), Ok(f)) => f == (
                n.task_id@,
                n.status,
                n.summary@,
                opt_view(n.details),
                n.progress,
            ),
            (Err(m), Err(w)) => m@ == w,
            _ => false,
        },
{
    let task_id = match required_option(args, "--task-id") {
        Ok(v) => v,
        Err(m) => return Err(m),
    };
    let status_text = match required_option(args, "--status") {
        Ok(v) => v,
        Err(m) => return Err(m),
    };
    let status = match Status::parse(status_text.as_str()) {
        Ok(s) => s,
        Err(m) => return Err(m),
    };
    let summary = match required_option(args, "--summary") {
        Ok(v) => v,
        Err(m) => return Err(m),
    };
    let progress = match optional_u8(args, "--progress") {
        Ok(v) => v,
        Err(m) => return Err(m),
    };
    let details = match single_option(args, "--details") {
        Ok(v) => v,
        Err(m) => return Err(m),
    };
    let known: [&str; 5] = ["--task-id", "--status", "--summary", "--progress", "--details"];
    proof {
        assert(known@.map_values(|k: &str| k@) =~= notify_options());
    }
    match reject_unknown_options(args, known.as_slice()) {
        Ok(()) => {},
        Err(m) => return Err(m),
    }
    let notification = Notification { task_id, status, summary, details, progress };
    match notification.validate() {
        Ok(()) => Ok(notification),
        Err(m) => Err(m),
    }
}

/// What a client prints for an answer: its message, as success or failure.
pub fn response_outcome(response: Response) -> (r: Result<String, String>)
    ensures
        match r {
            Ok(m) => response.ok && m@ == response.message@,
            Err(m) => !response.ok && m@ == response.message@,
        },
{
    if response.ok {
        Ok(response.message)
    } else {
        Err(response.message)
    }
}

proof fn lemma_decimal_digits(n: nat)
    ensures
        all_digits(decimal(n)),
        digits_value(decimal(n)) == n,
    decreases n,
{
    if n < 10 {
        let d = decimal(n);
        assert(d.drop_last() =~= Seq::<char>::empty());
        assert(digit_value(digit(n)) == n);
        assert(digits_value(d) == digits_value(d.drop_last()) * 10 + digit_value(d.last()));
    } else {
        lemma_decimal_digits(n / 10);
        let d = decimal(n);
        let c = digit(n % 10);
        assert(d.drop_last() =~= decimal(n / 10));
        assert(d.last() == c);
        assert(digit_value(c) == n % 10);
        assert(digits_value(d) == digits_value(d.drop_last()) * 10 + digit_value(d.last()));
        assert((n / 10) * 10 + n % 10 == n);
        assert forall|i: int| 0 <= i < d.len() implies is_digit(#[trigger] d[i]) by {
            if i < d.len() - 1 {
                assert(d[i] == decimal(n / 10)[i]);
            }
        }
    }
}

/// The number a mail prints for a progress value reads back, through the
/// client's option parser, as that value.
pub proof fn printed_progress_reads_back(p: u8)
    ensures
        parse_u8_spec(decimal(p as nat)) == Some(p),
{
    lemma_decimal_digits(p as nat);
    assert(decimal(p as nat)[0] != '+');
}

/// Whatever status the arguments give, a notification read from them
/// carries exactly the `--task-id`, `--summary`, `--details` and
/// `--progress` values given (no details or progress where the option is
/// absent), and the status that `--status` names.
pub proof fn notification_carries_every_option(args: Seq<Seq<char>>)
    ensures
        notify_fields(args) matches Ok(f) ==> {
            &&& required_value(args, "--task-id"@) == Ok::<Seq<char>, Seq<char>>(f.0)
            &&& (required_value(args, "--status"@) matches Ok(s) && status_named(s) == Some(f.1))
            &&& required_value(args, "--summary"@) == Ok::<Seq<char>, Seq<char>>(f.2)
            &&& option_value(args, "--details"@) == Ok::<Option<Seq<char>>, Seq<char>>(f.3)
            &&& percentage_value(args, "--progress"@) == Ok::<Option<u8>, Seq<char>>(f.4)
        },
{
}

} // verus!
