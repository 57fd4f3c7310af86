use vstd::prelude::*;
use crate::text::{chars_of, matches_at, occurs_at, push_char};

verus! {

/// `s` without its leading slashes.
pub open spec fn strip_slashes(s: Seq<char>) -> Seq<char>
    decreases s.len(),
{
    if s.len() > 0 && s[0] == '/' {
        strip_slashes(s.drop_first())
    } else {
        s
    }
}

/// `s` with each `%20`, read left to right without overlap, replaced by a space, as
/// `str::replace("%20", " ")` gives it.
pub open spec fn decode_spaces(s: Seq<char>) -> Seq<char>
    decreases s.len(),
{
    if s.len() == 0 {
        seq![]
    } else if s.len() >= 3 && s[0] == '%' && s[1] == '2' && s[2] == '0' {
        seq![' '] + decode_spaces(s.skip(3))
    } else {
        seq![s[0]] + decode_spaces(s.drop_first())
    }
}

/// The file path that a `file://` command-line argument names: the text after `file://`,
/// without leading slashes on Windows, with `%20` read as a space. `None` for any other
/// argument.
pub open spec fn file_url_target(arg: Seq<char>, windows: bool) -> Option<Seq<char>> {
    if occurs_at(arg, "file://"@, 0) {
        let raw = arg.skip("file://"@.len() as int);
        Some(decode_spaces(if windows {
            strip_slashes(raw)
        } else {
            raw
        }))
    } else {
        None
    }
}

/// The file path that a `file://` command-line argument names, if it is one.
pub fn file_url_path(arg: &str, windows: bool) -> (path: Option<String>)
    ensures
        crate::search::opt_view(path) == file_url_target(arg@, windows),
{
    let cs = chars_of(arg);
    let prefix = chars_of("file://");
    if !matches_at(cs.as_slice(), prefix.as_slice(), 0) {
        return None;
    }
    let n = cs.len();
    let mut start: usize = prefix.len();
    let ghost raw = arg@.skip("file://"@.len() as int);
    assert(cs@.skip(start as int) == raw);
    if windows {
        while start < n && cs[start] == '/'
            invariant
                cs@ == arg@,
                n == cs@.len(),
                start <= n,
                strip_slashes(raw) == strip_slashes(cs@.skip(start as int)),
            decreases n - start,
        {
            assert(cs@.skip(start as int).drop_first() =~= cs@.skip(start + 1));
            start += 1;
        }
        assert(strip_slashes(cs@.skip(start as int)) == cs@.skip(start as int));
    }
    let ghost body = cs@.skip(start as int);
    assert(body == if windows {
        strip_slashes(raw)
    } else {
        raw
    });
    let mut out = String::new();
    let mut i: usize = start;
    while i < n
        invariant
            cs@ == arg@,
            n == cs@.len(),
            start <= i <= n,
            out@ + decode_spaces(cs@.skip(i as int)) == decode_spaces(body),
            body == cs@.skip(start as int),
        decreases n - i,
    {
        let ghost rest = cs@.skip(i as int);
        if n - i >= 3 && cs[i] == '%' && cs[i + 1] == '2' && cs[i + 2] == '0' {
            push_char(&mut out, ' ');
            assert(rest.skip(3) =~= cs@.skip(i + 3));
            assert(decode_spaces(rest) == seq![' '] + decode_spaces(rest.skip(3)));
            i += 3;
        } else {
            push_char(&mut out, cs[i]);
            assert(rest.drop_first() =~= cs@.skip(i + 1));
            assert(decode_spaces(rest) == seq![rest[0]] + decode_spaces(rest.drop_first()));
            i += 1;
        }
    }
    assert(cs@.skip(n as int) =~= Seq::<char>::empty());
    assert(out@ =~= decode_spaces(body));
    Some(out)
}

} // verus!
