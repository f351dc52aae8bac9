//! The service's own configuration: credentials, mail routing and limits.

use vstd::prelude::*;

use crate::text::{
    blank, chars_of, contains_line_break, has_char, has_line_break, is_blank, is_white_space,
    owned, push_char, white_space,
};

verus! {

/// What the service owns: the Cloudflare account and token, the sender and
/// recipient, where it listens, how often progress mail may go out, and the
/// subject prefix.
pub struct Config {
    pub account_id: String,
    pub api_token: String,
    pub from: String,
    pub to: String,
    pub listen: String,
    pub min_progress_interval_secs: u64,
    pub subject_prefix: String,
}

/// The address the service listens on when the configuration names none.
pub open spec fn default_listen_spec() -> Seq<char> {
    "127.0.0.1:9109"@
}

/// The subject prefix when the configuration names none.
pub open spec fn default_subject_prefix_spec() -> Seq<char> {
    "[Agent]"@
}

/// Where the configuration file lies below the home directory.
pub open spec fn config_file_below_home() -> Seq<char> {
    ".config/ping-agent-mail/config.toml"@
}

/// `base` with the relative path `rest` appended, as `PathBuf::join` does
/// it on Unix: a `/` goes between them unless `base` is empty or already
/// ends with one.
pub open spec fn join_path(base: Seq<char>, rest: Seq<char>) -> Seq<char> {
    if base.len() > 0 && base.last() != '/' {
        base + "/"@ + rest
    } else {
        base + rest
    }
}

/// The configuration path for the home directory `home` (the working
/// directory when there is none).
pub open spec fn config_path_for(home: Option<Seq<char>>) -> Seq<char> {
    let base = match home {
        Some(h) => h,
        None => "."@,
    };
    join_path(base, config_file_below_home())
}

/// `i` is the position of the last `@` in `s`.
pub open spec fn is_last_at(s: Seq<char>, i: int) -> bool {
    &&& 0 <= i < s.len()
    &&& s[i] == '@'
    &&& forall|j: int| i < j < s.len() ==> s[j] != '@'
}

/// The address check: text before the last `@`, a `.` after it, and no
/// white space anywhere.
pub open spec fn looks_like_email_spec(s: Seq<char>) -> bool {
    &&& exists|i: int| #[trigger] is_last_at(s, i) && i > 0 && has_char(s.skip(i + 1), '.')
    &&& forall|j: int| 0 <= j < s.len() ==> !is_white_space(#[trigger] s[j])
}

/// The first rule a configuration breaks, as the message that reports it;
/// `listen_ok` says whether `listen` parses as an IP socket address.
pub open spec fn config_problem(c: Config, listen_ok: bool) -> Option<Seq<char>> {
    if is_blank(c.account_id@) {
        Some("config field account_id must not be empty"@)
    } else if is_blank(c.api_token@) {
        Some("config field api_token must not be empty"@)
    } else if is_blank(c.from@) {
        Some("config field from must not be empty"@)
    } else if is_blank(c.to@) {
        Some("config field to must not be empty"@)
    } else if !looks_like_email_spec(c.from@) || !looks_like_email_spec(c.to@) {
        Some("config fields from and to must be email addresses"@)
    } else if has_line_break(c.subject_prefix@) {
        Some("subject_prefix must not contain a newline"@)
    } else if !listen_ok {
        Some("config field listen must be an IP socket address such as 127.0.0.1:9109"@)
    } else {
        None
    }
}

/// A configuration the service may run with.
pub open spec fn config_is_valid(c: Config, listen_ok: bool) -> bool {
    config_problem(c, listen_ok) is None
}

/// The message for a configuration path that is no regular file.
pub open spec fn not_regular_file_message(path: Seq<char>) -> Seq<char> {
    "config "@ + path + " must be a regular file, not a symlink"@
}

/// The message for a configuration file that others may read.
pub open spec fn shared_permissions_message(path: Seq<char>) -> Seq<char> {
    "config "@ + path + " is accessible by group or others; run chmod 600 "@ + path
}

impl Config {
    /// Checks the configuration; `listen_ok` is whether `listen` parses as
    /// an IP socket address (`std::net::SocketAddr`).
    pub fn validate(&self, listen_ok: bool) -> (r: Result<(), String>)
        ensures
            r is Ok <==> config_is_valid(*self, listen_ok),
            r matches Err(m) ==> Some(m@) == config_problem(*self, listen_ok),
    {
        if blank(self.account_id.as_str()) {
            return Err(owned("config field account_id must not be empty"));
        }
        if blank(self.api_token.as_str()) {
            return Err(owned("config field api_token must not be empty"));
        }
        if blank(self.from.as_str()) {
            return Err(owned("config field from must not be empty"));
        }
        if blank(self.to.as_str()) {
            return Err(owned("config field to must not be empty"));
        }
        if !looks_like_email(self.from.as_str()) || !looks_like_email(self.to.as_str()) {
            return Err(owned("config fields from and to must be email addresses"));
        }
        if contains_line_break(self.subject_prefix.as_str()) {
            return Err(owned("subject_prefix must not contain a newline"));
        }
        if !listen_ok {
            return Err(
                owned("config field listen must be an IP socket address such as 127.0.0.1:9109"),
            );
        }
        Ok(())
    }
}

/// The configuration path below the home directory `home`, or below the
/// working directory when `home` is `None`.
pub fn default_config_path(home: Option<&str>) -> (p: String)
    ensures
        p@ == config_path_for(
            match home {
                Some(h) => Some(h@),
                None => None,
            },
        ),
{
    let mut p = match home {
        Some(h) => owned(h),
        None => owned("."),
    };
    let v = chars_of(p.as_str());
    if v.len() > 0 && v[v.len() - 1] != '/' {
        push_char(&mut p, '/');
        proof {
            assert(p@ =~= v@ + "/"@) by {
                reveal_strlit("/");
            }
        }
    }
    p.append(".config/ping-agent-mail/config.toml");
    p
}

/// The address the service listens on by default.
pub fn default_listen() -> (s: String)
    ensures
        s@ == default_listen_spec(),
{
    owned("127.0.0.1:9109")
}

/// The least time between two progress mails of one task, by default.
pub fn default_interval() -> (secs: u64)
    ensures
        secs == 900,
{
    900
}

/// The subject prefix by default.
pub fn default_subject_prefix() -> (s: String)
    ensures
        s@ == default_subject_prefix_spec(),
{
    owned("[Agent]")
}

/// Whether `value` has the shape of a mail address.
pub fn looks_like_email(value: &str) -> (r: bool)
    ensures
        r == looks_like_email_spec(value@),
{
    let v = chars_of(value);
    let n = v.len();
    // The position of the last '@'.
    let mut k: usize = n;
    while k > 0
        invariant
            v@ == value@,
            n == v.len(),
            k <= n,
            forall|j: int| k <= j < n ==> v@[j] != '@',
        ensures
            k <= n,
            forall|j: int| k <= j < n ==> v@[j] != '@',
            k > 0 ==> v@[k - 1] == '@',
        decreases k,
    {
        if v[k - 1] == '@' {
            break ;
        }
        k = k - 1;
    }
    if k == 0 {
        // No '@' at all, or only at the very front.
        proof {
            if looks_like_email_spec(value@) {
                let i = choose|i: int| #[trigger] is_last_at(value@, i) && i > 0 && has_char(
                    value@.skip(i + 1),
                    '.',
                );
                if v@[0] == '@' {
                    assert(v@[i] == '@');
                }
            }
        }
        return false;
    }
    let at = k - 1;
    assert(is_last_at(value@, at as int));
    if at == 0 {
        proof {
            if looks_like_email_spec(value@) {
                let i = choose|i: int| #[trigger] is_last_at(value@, i) && i > 0 && has_char(
                    value@.skip(i + 1),
                    '.',
                );
                assert(i == at);
            }
        }
        return false;
    }
    // A '.' after the '@'.
    let mut dot = false;
    let mut j: usize = at + 1;
    while j < n
        invariant
            v@ == value@,
            n == v.len(),
            at < n,
            at + 1 <= j <= n,
            dot == exists|m: int| at + 1 <= m < j && v@[m] == '.',
        decreases n - j,
    {
        if v[j] == '.' {
            dot = true;
        }
        j = j + 1;
    }
    proof {
        let tail = value@.skip(at + 1);
        if dot {
            let m = choose|m: int| at + 1 <= m < n && v@[m] == '.';
            assert(tail[m - at - 1] == '.');
        }
        if has_char(tail, '.') {
            let m = choose|m: int| 0 <= m < tail.len() && tail[m] == '.';
            assert(v@[m + at + 1] == '.');
        }
        assert(dot == has_char(tail, '.'));
        if looks_like_email_spec(value@) {
            let i = choose|i: int| #[trigger] is_last_at(value@, i) && i > 0 && has_char(
                value@.skip(i + 1),
                '.',
            );
            assert(i == at);
        }
    }
    if !dot {
        return false;
    }
    // No white space anywhere.
    let mut w: usize = 0;
    while w < n
        invariant
            v@ == value@,
            n == v.len(),
            w <= n,
            forall|m: int| 0 <= m < w ==> !is_white_space(#[trigger] v@[m]),
        decreases n - w,
    {
        if white_space(v[w]) {
            return false;
        }
        w = w + 1;
    }
    true
}

/// Refuses a configuration path that is a symbolic link or no regular file.
pub fn check_regular_file(path: &str, is_symlink: bool, is_file: bool) -> (r: Result<(), String>)
    ensures
        r is Ok <==> !is_symlink && is_file,
        r matches Err(m) ==> m@ == not_regular_file_message(path@),
{
    if is_symlink || !is_file {
        let mut m = owned("config ");
        m.append(path);
        m.append(" must be a regular file, not a symlink");
        return Err(m);
    }
    Ok(())
}

/// Refuses a configuration file whose permission bits `mode` let the
/// group or others in.
pub fn check_private_permissions(path: &str, mode: u32) -> (r: Result<(), String>)
    ensures
        r is Ok <==> mode & 0o077 == 0,
        r matches Err(m) ==> m@ == shared_permissions_message(path@),
{
    if mode & 0o077 != 0 {
        let mut m = owned("config ");
        m.append(path);
        m.append(" is accessible by group or others; run chmod 600 ");
        m.append(path);
        return Err(m);
    }
    Ok(())
}

/// A configuration the service accepts has every credential and address
/// field filled, a sender and a recipient that both look like mail
/// addresses, a subject prefix on one line, and a listen address that
/// parses.
pub proof fn valid_configs_have_mail_addresses(c: Config, listen_ok: bool)
    requires
        config_is_valid(c, listen_ok),
    ensures
        !is_blank(c.account_id@),
        !is_blank(c.api_token@),
        looks_like_email_spec(c.from@),
        looks_like_email_spec(c.to@),
        !has_line_break(c.subject_prefix@),
        listen_ok,
{
}

} // verus!
