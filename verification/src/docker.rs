//! Resolution of a service's base URL from the output of the container
//! tool's port query. Building the command's arguments and turning its
//! output into a base URL are computations; invoking the tool is not done
//! here — a caller runs the command and hands its output back.

use vstd::prelude::*;

verus! {

/// The decimal digit character for `d`, for `d < 10`.
pub open spec fn dec_digit(d: nat) -> char {
    if d == 0 {
        '0'
    } else if d == 1 {
        '1'
    } else if d == 2 {
        '2'
    } else if d == 3 {
        '3'
    } else if d == 4 {
        '4'
    } else if d == 5 {
        '5'
    } else if d == 6 {
        '6'
    } else if d == 7 {
        '7'
    } else if d == 8 {
        '8'
    } else {
        '9'
    }
}

/// The decimal representation of `n`, most significant digit first.
pub open spec fn dec_str(n: nat) -> Seq<char>
    decreases n,
{
    if n < 10 {
        seq![dec_digit(n)]
    } else {
        dec_str(n / 10).push(dec_digit(n % 10))
    }
}

/// The one-character string of a decimal digit.
fn digit_str(d: u16) -> (r: &'static str)
    requires
        d < 10,
    ensures
        r@ == seq![dec_digit(d as nat)],
{
    let s: &'static str = if d == 0 {
        "0"
    } else if d == 1 {
        "1"
    } else if d == 2 {
        "2"
    } else if d == 3 {
        "3"
    } else if d == 4 {
        "4"
    } else if d == 5 {
        "5"
    } else if d == 6 {
        "6"
    } else if d == 7 {
        "7"
    } else if d == 8 {
        "8"
    } else {
        "9"
    };
    proof {
        reveal_strlit("0");
        reveal_strlit("1");
        reveal_strlit("2");
        reveal_strlit("3");
        reveal_strlit("4");
        reveal_strlit("5");
        reveal_strlit("6");
        reveal_strlit("7");
        reveal_strlit("8");
        reveal_strlit("9");
        assert(s@ =~= seq![dec_digit(d as nat)]);
    }
    s
}

/// Appends the decimal representation of `n` to `out`.
fn push_dec(out: &mut String, n: u16)
    ensures
        final(out)@ == old(out)@ + dec_str(n as nat),
    decreases n,
{
    if n >= 10 {
        push_dec(out, n / 10);
        out.append(digit_str(n % 10));
        proof {
            assert(old(out)@ + dec_str((n / 10) as nat) + seq![dec_digit((n % 10) as nat)]
                =~= old(out)@ + dec_str(n as nat));
        }
    } else {
        out.append(digit_str(n));
    }
}

/// The decimal string of a port number.
pub fn port_to_string(n: u16) -> (r: String)
    ensures
        r@ == dec_str(n as nat),
{
    let mut out = String::new();
    push_dec(&mut out, n);
    proof {
        assert(Seq::<char>::empty() + dec_str(n as nat) =~= dec_str(n as nat));
    }
    out
}

/// A character the trim of a port query's output discards: ASCII blanks
/// and line ends.
pub open spec fn is_blank(c: char) -> bool {
    c == ' ' || c == '\n' || c == '\r' || c == '\t'
}

/// `s` with leading and trailing blanks removed.
pub open spec fn spec_trim(s: Seq<char>) -> Seq<char>
    decreases s.len(),
{
    if s.len() == 0 {
        s
    } else if is_blank(s[0]) {
        spec_trim(s.skip(1))
    } else if is_blank(s.last()) {
        spec_trim(s.drop_last())
    } else {
        s
    }
}

/// Strips leading and trailing blanks from `s`.
pub fn trim_blanks(s: &str) -> (r: String)
    ensures
        r@ == spec_trim(s@),
{
    let n = s.unicode_len();
    let mut lo: usize = 0;
    let mut hi: usize = n;
    let mut settled = false;
    proof {
        assert(s@.subrange(0, n as int) =~= s@);
    }
    while !settled && lo < hi
        invariant
            lo <= hi <= n,
            n == s@.len(),
            spec_trim(s@) == spec_trim(s@.subrange(lo as int, hi as int)),
            settled ==> lo < hi && !is_blank(s@[lo as int]) && !is_blank(s@[hi - 1]),
        decreases hi - lo + (if settled {
            0int
        } else {
            1int
        }),
    {
        let ghost cur = s@.subrange(lo as int, hi as int);
        if is_blank_exec(s.get_char(lo)) {
            proof {
                assert(cur[0] == s@[lo as int]);
                assert(cur.skip(1) =~= s@.subrange(lo + 1, hi as int));
            }
            lo += 1;
        } else if is_blank_exec(s.get_char(hi - 1)) {
            proof {
                assert(cur[0] == s@[lo as int]);
                assert(cur.last() == s@[hi - 1]);
                assert(cur.drop_last() =~= s@.subrange(lo as int, hi - 1));
            }
            hi -= 1;
        } else {
            settled = true;
        }
    }
    proof {
        let cur = s@.subrange(lo as int, hi as int);
        if lo < hi {
            assert(cur[0] == s@[lo as int]);
            assert(cur.last() == s@[hi - 1]);
        }
        assert(spec_trim(cur) == cur);
    }
    let piece = s.substring_char(lo, hi);
    String::from_str(piece)
}

/// Whether a character is discarded by `trim_blanks`.
fn is_blank_exec(c: char) -> (r: bool)
    ensures
        r == is_blank(c),
{
    c == ' ' || c == '\n' || c == '\r' || c == '\t'
}

/// Runs the container tool's port query by way of the caller: this type
/// only computes the argument list and interprets the output.
pub struct Docker {
    pub compose_file: Option<String>,
}

/// The argument list of the port query for service `name` on `port`,
/// including the compose file when one was given.
pub open spec fn spec_port_args(
    compose_file: Option<String>,
    name: Seq<char>,
    port: u16,
) -> Seq<Seq<char>> {
    match compose_file {
        Some(f) => seq!["compose"@, "-f"@, f@, "port"@, name, dec_str(port as nat)],
        None => seq!["compose"@, "port"@, name, dec_str(port as nat)],
    }
}

impl Docker {
    pub fn new(compose_file: Option<String>) -> (r: Self)
        ensures
            r.compose_file == compose_file,
    {
        Docker { compose_file }
    }

    /// The arguments handed to the container tool to ask for the published
    /// port of `name`.
    pub fn port_args(&self, name: &str, port: u16) -> (r: Vec<String>)
        ensures
            crate::order::seq_views(r@) == spec_port_args(self.compose_file, name@, port),
    {
        let mut args: Vec<String> = Vec::new();
        args.push(String::from_str("compose"));
        match &self.compose_file {
            Some(f) => {
                args.push(String::from_str("-f"));
                args.push(f.clone());
            },
            None => {},
        }
        args.push(String::from_str("port"));
        args.push(String::from_str(name));
        args.push(port_to_string(port));
        proof {
            assert(crate::order::seq_views(args@) =~= spec_port_args(
                self.compose_file,
                name@,
                port,
            ));
        }
        args
    }
}

/// The base URL derived from a successful port query's output: its trimmed
/// `host:port` line under the `http` scheme, ending in a slash.
pub fn base_url_from_output(stdout: &str) -> (r: String)
    ensures
        r@ == "http://"@ + spec_trim(stdout@) + "/"@,
{
    let mut url = String::from_str("http://");
    let host = trim_blanks(stdout);
    url.append(host.as_str());
    url.append("/");
    url
}

} // verus!
