//! Builtin command dispatch: `cd`, `exit`, `mkdir`.
//!
//! The dispatch and argument checking are decided here; the directory
//! changes and creations they call for are handed back to the caller as a
//! [`Request`], since performing them is input/output.

use vstd::prelude::*;

verus! {

use crate::chars::str_to_chars;

/// A builtin's failure, or the demand to leave the shell.
#[derive(Clone, Debug, PartialEq, Eq)]
pub enum Error {
    /// The name is no builtin; the caller may try an external command.
    CommandNotFound,
    /// Leave the shell with this status.
    Exit(i32),
    /// The arguments do not fit the builtin.
    InvalidArgs,
    /// A failure while performing the builtin's effect.
    Runtime(String),
}

/// The side effect a builtin asks its caller to perform.
#[derive(Clone, Debug, PartialEq, Eq)]
pub enum Request {
    /// Change to the named directory, or to the home directory without one.
    ChangeDir(Option<String>),
    /// Create each named directory, in order.
    MakeDirs(Vec<String>),
}

/// A decimal digit.
pub open spec fn is_dec_digit(c: char) -> bool {
    0x30 <= c as u32 && c as u32 <= 0x39
}

/// Every character of `ds` is a decimal digit.
pub open spec fn all_dec_digits(ds: Seq<char>) -> bool {
    forall|k: int| 0 <= k < ds.len() ==> is_dec_digit(ds[k])
}

/// The numeric value of a run of decimal digits.
pub open spec fn dec_val(ds: Seq<char>) -> int
    decreases ds.len(),
{
    if ds.len() == 0 {
        0
    } else {
        dec_val(ds.drop_last()) * 10 + (ds.last() as u32 - 0x30)
    }
}

/// What `str::parse::<i32>` accepts: an optional `+` or `-`, then at
/// least one decimal digit and nothing else, naming a value within the
/// type's range.
pub open spec fn spec_parse_i32(s: Seq<char>) -> Option<i32> {
    let has_sign = s.len() > 0 && (s[0] == '+' || s[0] == '-');
    let neg = s.len() > 0 && s[0] == '-';
    let ds = if has_sign {
        s.drop_first()
    } else {
        s
    };
    if ds.len() == 0 || !all_dec_digits(ds) {
        None
    } else {
        let v = dec_val(ds);
        if neg {
            if v <= 0x80000000 {
                Some((-v) as i32)
            } else {
                None
            }
        } else {
            if v <= 0x7FFFFFFF {
                Some(v as i32)
            } else {
                None
            }
        }
    }
}

/// Extending a digit run multiplies its value by ten and adds the digit.
proof fn lemma_dec_val_step(ds: Seq<char>, k: int)
    requires
        0 <= k < ds.len(),
    ensures
        dec_val(ds.take(k + 1)) == dec_val(ds.take(k)) * 10 + (ds[k] as u32 - 0x30),
{
    assert(ds.take(k + 1).drop_last() =~= ds.take(k));
    assert(ds.take(k + 1).last() == ds[k]);
}

/// A digit run's value only grows as digits follow.
proof fn lemma_dec_val_grows(ds: Seq<char>, k: int)
    requires
        0 <= k <= ds.len(),
        all_dec_digits(ds),
        dec_val(ds.take(k)) > 0xFFFFFFFF,
    ensures
        dec_val(ds) > 0xFFFFFFFF,
    decreases ds.len() - k,
{
    if k < ds.len() {
        lemma_dec_val_step(ds, k);
        lemma_dec_val_grows(ds, k + 1);
    } else {
        assert(ds.take(k) =~= ds);
    }
}

/// Parse a decimal integer as `str::parse::<i32>` does: `None` on a
/// malformed string or a value out of range.
pub fn parse_i32(s: &str) -> (r: Option<i32>)
    ensures
        r == spec_parse_i32(s@),
{
    let chars = str_to_chars(s);
    proof {
        crate::chars::lemma_fits_len(chars@);
    }
    let n = chars.len();
    let mut start: usize = 0;
    let mut neg = false;
    if n > 0 && (chars[0] == '+' || chars[0] == '-') {
        neg = chars[0] == '-';
        start = 1;
    }
    if start >= n {
        return None;
    }
    let ghost ds = if start == 1 {
        chars@.drop_first()
    } else {
        chars@
    };
    assert(ds =~= chars@.subrange(start as int, n as int));
    let mut acc: u64 = 0;
    let mut k = start;
    loop
        invariant
            start <= k <= n,
            (start as int) < n as int,
            n == chars@.len(),
            n <= usize::MAX,
            chars@ == s@,
            start <= 1,
            (start == 1) == (s@.len() > 0 && (s@[0] == '+' || s@[0] == '-')),
            neg == (s@.len() > 0 && s@[0] == '-'),
            ds == (if start == 1 {
                s@.drop_first()
            } else {
                s@
            }),
            ds == chars@.subrange(start as int, n as int),
            ds.len() == n - start,
            all_dec_digits(ds.take(k - start)),
            acc <= 0xFFFFFFFF ==> acc as int == dec_val(ds.take(k - start)),
            acc > 0xFFFFFFFF ==> dec_val(ds.take(k - start)) > 0xFFFFFFFF,
            acc > 0xFFFFFFFF ==> acc <= 0x28000000000,
        ensures
            k == n,
            all_dec_digits(ds),
            acc <= 0xFFFFFFFF ==> acc as int == dec_val(ds),
            acc > 0xFFFFFFFF ==> dec_val(ds) > 0xFFFFFFFF,
        decreases n - k,
    {
        if k >= n {
            assert(ds.take(k - start) =~= ds);
            break;
        }
        let c = chars[k];
        let u = c as u32;
        assert(ds[k - start] == chars@[k as int]);
        if !(0x30 <= u && u <= 0x39) {
            assert(!all_dec_digits(ds));
            return None;
        }
        proof {
            let m = k - start;
            assert(m + 1 <= ds.len());
            assert(ds[m] == c);
            assert(is_dec_digit(ds[m as int]));
            assert(all_dec_digits(ds.take(m + 1))) by {
                assert forall|q: int| 0 <= q < ds.take(m + 1).len() implies is_dec_digit(
                    #[trigger] ds.take(m + 1)[q],
                ) by {
                    assert(ds.take(m + 1)[q] == ds[q]);
                    if q < m {
                        assert(ds.take(m)[q] == ds[q]);
                        assert(is_dec_digit(ds.take(m)[q]));
                    }
                }
            }
            lemma_dec_val_step(ds, m);
            assert(ds.take(m + 1).take(m) =~= ds.take(m));
            if dec_val(ds.take(m)) > 0xFFFFFFFF {
                lemma_dec_val_grows(ds.take(m + 1), m);
            }
        }
        let d = (u - 0x30) as u64;
        if acc <= 0xFFFFFFFF {
            acc = acc * 10 + d;
        }
        k = k + 1;
    }
    if acc > 0xFFFFFFFF {
        return None;
    }
    if neg {
        if acc <= 0x80000000 {
            Some((-(acc as i64)) as i32)
        } else {
            None
        }
    } else {
        if acc <= 0x7FFFFFFF {
            Some(acc as i32)
        } else {
            None
        }
    }
}

/// The `cd` builtin's decision: at most one argument; the caller changes
/// the directory, to the argument or to the home directory.
fn cd(args: &Vec<String>) -> (r: Result<Request, Error>)
    ensures
        args@.len() > 1 ==> r matches Err(Error::InvalidArgs),
        args@.len() == 0 ==> (r matches Ok(q) && q matches Request::ChangeDir(t) && t is None),
        args@.len() == 1 ==> (r matches Ok(q) && q matches Request::ChangeDir(t) && t matches Some(
            x,
        ) && x@ == args@[0]@),
{
    if args.len() > 1 {
        return Err(Error::InvalidArgs);
    }
    if args.len() == 1 {
        Ok(Request::ChangeDir(Some(args[0].clone())))
    } else {
        Ok(Request::ChangeDir(None))
    }
}

/// The `exit` builtin: at most one argument, the status code; a missing
/// code means zero, and a malformed one is rejected. It never succeeds:
/// leaving the shell is reported as `Error::Exit`.
pub fn exit(args: &Vec<String>) -> (r: Result<i32, Error>)
    ensures
        args@.len() > 1 ==> r matches Err(Error::InvalidArgs),
        args@.len() == 0 ==> r matches Err(Error::Exit(0)),
        args@.len() == 1 ==> match spec_parse_i32(args@[0]@) {
            Some(c) => r matches Err(e) && e matches Error::Exit(cc) && cc == c,
            None => r matches Err(Error::InvalidArgs),
        },
{
    if args.len() > 1 {
        return Err(Error::InvalidArgs);
    }
    if args.len() == 1 {
        match parse_i32(args[0].as_str()) {
            Some(code) => Err(Error::Exit(code)),
            None => Err(Error::InvalidArgs),
        }
    } else {
        Err(Error::Exit(0))
    }
}

/// The `mkdir` builtin's decision: at least one argument; the caller
/// creates each named directory.
fn mkdir(args: &Vec<String>) -> (r: Result<Request, Error>)
    ensures
        args@.len() == 0 ==> r matches Err(Error::InvalidArgs),
        args@.len() > 0 ==> (r matches Ok(q) && q matches Request::MakeDirs(v) && v@.len()
            == args@.len() && forall|k: int| 0 <= k < v@.len() ==> v@[k]@ == args@[k]@),
{
    if args.len() == 0 {
        return Err(Error::InvalidArgs);
    }
    let mut v: Vec<String> = Vec::new();
    let mut k: usize = 0;
    while k < args.len()
        invariant
            k <= args@.len(),
            v@.len() == k,
            forall|q: int| 0 <= q < k ==> v@[q]@ == args@[q]@,
        decreases args@.len() - k,
    {
        v.push(args[k].clone());
        k = k + 1;
    }
    Ok(Request::MakeDirs(v))
}

/// Dispatch one command name to its builtin and validate the arguments.
/// An unknown name is `CommandNotFound`, so the caller may search for an
/// external executable instead.
pub fn run(name: &str, args: &Vec<String>) -> (r: Result<Request, Error>)
    ensures
        (name@ == "cd"@ && args@.len() > 1) ==> r matches Err(Error::InvalidArgs),
        (name@ == "cd"@ && args@.len() == 0) ==> (r matches Ok(q) && q matches Request::ChangeDir(
            t,
        ) && t is None),
        (name@ == "cd"@ && args@.len() == 1) ==> (r matches Ok(q) && q matches Request::ChangeDir(
            t,
        ) && t matches Some(x) && x@ == args@[0]@),
        (name@ == "exit"@ && args@.len() > 1) ==> r matches Err(Error::InvalidArgs),
        (name@ == "exit"@ && args@.len() == 0) ==> r matches Err(Error::Exit(0)),
        (name@ == "exit"@ && args@.len() == 1) ==> match spec_parse_i32(args@[0]@) {
            Some(c) => r matches Err(e) && e matches Error::Exit(cc) && cc == c,
            None => r matches Err(Error::InvalidArgs),
        },
        (name@ == "mkdir"@ && args@.len() == 0) ==> r matches Err(Error::InvalidArgs),
        (name@ == "mkdir"@ && args@.len() > 0) ==> (r matches Ok(q) && q matches Request::MakeDirs(
            v,
        ) && v@.len() == args@.len() && forall|k: int| 0 <= k < v@.len() ==> v@[k]@ == args@[k]@),
        (name@ != "cd"@ && name@ != "exit"@ && name@ != "mkdir"@) ==> r matches Err(
            Error::CommandNotFound,
        ),
{
    proof {
        reveal_strlit("cd");
        reveal_strlit("exit");
        reveal_strlit("mkdir");
        assert("cd"@.len() == 2);
        assert("exit"@.len() == 4);
        assert("mkdir"@.len() == 5);
    }
    let n = name.to_owned();
    if n == String::from_str("cd") {
        cd(args)
    } else if n == String::from_str("exit") {
        match exit(args) {
            Err(e) => Err(e),
            Ok(code) => Err(Error::Exit(code)),
        }
    } else if n == String::from_str("mkdir") {
        mkdir(args)
    } else {
        Err(Error::CommandNotFound)
    }
}

} // verus!
