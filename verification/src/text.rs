//! Whitespace normalization applied once to the fully rendered text.
//!
//! The target dialect has no block model of its own, so the renderer's blocks
//! each add their own surrounding newlines; a final pass trims the result,
//! collapses literal triple newlines, and removes a newline that immediately
//! follows a list-item marker. The two rewrites are single left-to-right,
//! non-overlapping passes, not repeated to a fixed point.

use vstd::prelude::*;

verus! {

/// Whether `c` is a whitespace character (the Unicode `White_Space` set).
pub open spec fn is_ws(c: char) -> bool {
    let u = c as u32;
    u == 0x09 || u == 0x0A || u == 0x0B || u == 0x0C || u == 0x0D || u == 0x20 || u == 0x85
        || u == 0xA0 || u == 0x1680 || (0x2000 <= u && u <= 0x200A) || u == 0x2028 || u == 0x2029
        || u == 0x202F || u == 0x205F || u == 0x3000
}

/// Whether `c` is a whitespace character.
fn is_ws_char(c: char) -> (r: bool)
    ensures
        r == is_ws(c),
{
    let u = c as u32;
    u == 0x09 || u == 0x0A || u == 0x0B || u == 0x0C || u == 0x0D || u == 0x20 || u == 0x85
        || u == 0xA0 || u == 0x1680 || (0x2000 <= u && u <= 0x200A) || u == 0x2028 || u == 0x2029
        || u == 0x202F || u == 0x205F || u == 0x3000
}

/// `s` without its leading whitespace.
pub open spec fn trim_start_s(s: Seq<char>) -> Seq<char>
    decreases s.len(),
{
    if s.len() > 0 && is_ws(s[0]) {
        trim_start_s(s.drop_first())
    } else {
        s
    }
}

/// `s` without its trailing whitespace.
pub open spec fn trim_end_s(s: Seq<char>) -> Seq<char>
    decreases s.len(),
{
    if s.len() > 0 && is_ws(s.last()) {
        trim_end_s(s.drop_last())
    } else {
        s
    }
}

/// `s` without leading and trailing whitespace.
pub open spec fn trim_s(s: Seq<char>) -> Seq<char> {
    trim_end_s(trim_start_s(s))
}

/// One left-to-right pass that rewrites each non-overlapping occurrence of
/// `pat` to `rep`; the scan resumes after the replacement, so a replacement
/// never takes part in a later match.
pub open spec fn replace_s(s: Seq<char>, pat: Seq<char>, rep: Seq<char>) -> Seq<char>
    decreases s.len(),
{
    if pat.len() == 0 || s.len() < pat.len() {
        s
    } else if s.take(pat.len() as int) == pat {
        rep + replace_s(s.skip(pat.len() as int), pat, rep)
    } else {
        s.take(1) + replace_s(s.skip(1), pat, rep)
    }
}

/// The final whitespace cleanup: trim, collapse literal triple newlines to
/// double, then drop a newline directly after a list-item marker.
pub open spec fn normalize(s: Seq<char>) -> Seq<char> {
    replace_s(replace_s(trim_s(s), "\n\n\n"@, "\n\n"@), "[*]\n"@, "[*]"@)
}

/// `s` without leading and trailing whitespace.
pub fn trim(s: &str) -> (r: String)
    ensures
        r@ == trim_s(s@),
{
    let n = s.unicode_len();
    let mut lo: usize = 0;
    proof {
        assert(s@.skip(0) =~= s@);
    }
    while lo < n && is_ws_char(s.get_char(lo))
        invariant
            lo <= n,
            n == s@.len(),
            trim_start_s(s@) == trim_start_s(s@.skip(lo as int)),
        decreases n - lo,
    {
        proof {
            assert(s@.skip(lo as int).drop_first() =~= s@.skip(lo as int + 1));
            assert(s@.skip(lo as int)[0] == s@[lo as int]);
        }
        lo = lo + 1;
    }
    let ghost t = s@.skip(lo as int);
    proof {
        if lo == n {
            assert(t =~= Seq::<char>::empty());
        }
        assert(trim_start_s(s@) == t);
        assert(t.take(n - lo) =~= t);
    }
    let mut hi: usize = n;
    while hi > lo && is_ws_char(s.get_char(hi - 1))
        invariant
            lo <= hi <= n,
            n == s@.len(),
            t == s@.skip(lo as int),
            trim_end_s(t) == trim_end_s(t.take(hi - lo)),
        decreases hi,
    {
        proof {
            assert(t.take(hi - lo).last() == s@[hi - 1]);
            assert(t.take(hi - lo).drop_last() =~= t.take(hi - 1 - lo));
        }
        hi = hi - 1;
    }
    proof {
        if hi == lo {
            assert(t.take(0) =~= Seq::<char>::empty());
        } else {
            assert(t.take(hi - lo).last() == s@[hi - 1]);
        }
        assert(trim_end_s(t) == t.take(hi - lo));
    }
    let sub = s.substring_char(lo, hi);
    proof {
        assert(sub@ =~= t.take(hi - lo));
    }
    sub.to_owned()
}

/// Collapse each literal run of exactly three newlines to two, in one pass.
pub fn replace_triple_newline(s: &str) -> (r: String)
    ensures
        r@ == replace_s(s@, "\n\n\n"@, "\n\n"@),
    decreases s@.len(),
{
    proof {
        reveal_strlit("\n\n\n");
        reveal_strlit("\n\n");
    }
    let n = s.unicode_len();
    if n < 3 {
        return s.to_owned();
    }
    if s.get_char(0) == '\n' && s.get_char(1) == '\n' && s.get_char(2) == '\n' {
        proof {
            assert(s@.take(3) =~= "\n\n\n"@);
        }
        let rest = replace_triple_newline(s.substring_char(3, n));
        let mut out = String::from_str("\n\n");
        out.append(rest.as_str());
        out
    } else {
        proof {
            assert(s@.take(3)[0] == s@[0] && s@.take(3)[1] == s@[1] && s@.take(3)[2] == s@[2]);
            assert(s@.take(3) != "\n\n\n"@);
            assert(s@.take(1) =~= s@.subrange(0, 1));
        }
        let head = s.substring_char(0, 1);
        let rest = replace_triple_newline(s.substring_char(1, n));
        let mut out = head.to_owned();
        out.append(rest.as_str());
        out
    }
}

/// Drop the newline directly after each list-item marker, in one pass.
pub fn replace_marker_newline(s: &str) -> (r: String)
    ensures
        r@ == replace_s(s@, "[*]\n"@, "[*]"@),
    decreases s@.len(),
{
    proof {
        reveal_strlit("[*]\n");
        reveal_strlit("[*]");
    }
    let n = s.unicode_len();
    if n < 4 {
        return s.to_owned();
    }
    if s.get_char(0) == '[' && s.get_char(1) == '*' && s.get_char(2) == ']' && s.get_char(3)
        == '\n' {
        proof {
            assert(s@.take(4) =~= "[*]\n"@);
        }
        let rest = replace_marker_newline(s.substring_char(4, n));
        let mut out = String::from_str("[*]");
        out.append(rest.as_str());
        out
    } else {
        proof {
            assert(s@.take(4)[0] == s@[0] && s@.take(4)[1] == s@[1] && s@.take(4)[2] == s@[2]
                && s@.take(4)[3] == s@[3]);
            assert(s@.take(4) != "[*]\n"@);
            assert(s@.take(1) =~= s@.subrange(0, 1));
        }
        let head = s.substring_char(0, 1);
        let rest = replace_marker_newline(s.substring_char(1, n));
        let mut out = head.to_owned();
        out.append(rest.as_str());
        out
    }
}

/// The whole cleanup pass over the raw rendered text.
pub fn normalize_text(s: &str) -> (r: String)
    ensures
        r@ == normalize(s@),
{
    let t = trim(s);
    let a = replace_triple_newline(t.as_str());
    let b = replace_marker_newline(a.as_str());
    b
}

/// `s` with every terminal escape character (U+001B) removed.
pub open spec fn strip_esc(s: Seq<char>) -> Seq<char>
    decreases s.len(),
{
    if s.len() == 0 {
        Seq::empty()
    } else if s[0] == '\u{1b}' {
        strip_esc(s.drop_first())
    } else {
        seq![s[0]] + strip_esc(s.drop_first())
    }
}

/// The stripped text holds no escape character.
pub proof fn lemma_strip_esc_clean(s: Seq<char>)
    ensures
        !strip_esc(s).contains('\u{1b}'),
    decreases s.len(),
{
    if s.len() > 0 {
        lemma_strip_esc_clean(s.drop_first());
        if s[0] != '\u{1b}' {
            assert forall|i: int| 0 <= i < strip_esc(s).len() implies #[trigger] strip_esc(s)[i]
                != '\u{1b}' by {
                if i > 0 {
                    assert(strip_esc(s)[i] == strip_esc(s.drop_first())[i - 1]);
                    if strip_esc(s.drop_first())[i - 1] == '\u{1b}' {
                        assert(strip_esc(s.drop_first()).contains('\u{1b}'));
                    }
                }
            }
        }
    }
}

/// `s` with every escape character removed; the grid renderer's width
/// bookkeeping rejects some texts holding it, so cell strings are cleaned
/// before a grid is drawn.
pub fn strip_escapes(s: &str) -> (r: String)
    ensures
        r@ == strip_esc(s@),
    decreases s@.len(),
{
    let n = s.unicode_len();
    if n == 0 {
        return String::new();
    }
    proof {
        assert(s@.drop_first() =~= s@.skip(1));
    }
    let rest = strip_escapes(s.substring_char(1, n));
    if s.get_char(0) == '\u{1b}' {
        rest
    } else {
        let mut out = s.substring_char(0, 1).to_owned();
        out.append(rest.as_str());
        proof {
            assert(s@.subrange(0, 1) =~= seq![s@[0]]);
        }
        out
    }
}

/// The sibling output file name: a trailing `.md` replaced by `.bbcode`, and
/// `.bbcode` appended to a name without that suffix.
pub open spec fn output_name_s(s: Seq<char>) -> Seq<char> {
    if s.len() >= 3 && s.subrange(s.len() - 3, s.len() as int) == ".md"@ {
        s.take(s.len() - 3) + ".bbcode"@
    } else {
        s + ".bbcode"@
    }
}

/// The sibling output file name for one source file name.
pub fn output_name(name: &str) -> (r: String)
    ensures
        r@ == output_name_s(name@),
{
    proof {
        reveal_strlit(".md");
        reveal_strlit(".bbcode");
    }
    let n = name.unicode_len();
    if n >= 3 && name.get_char(n - 3) == '.' && name.get_char(n - 2) == 'm' && name.get_char(
        n - 1,
    ) == 'd' {
        proof {
            assert(name@.subrange(n - 3, n as int) =~= ".md"@);
        }
        let mut out = name.substring_char(0, n - 3).to_owned();
        out.append(".bbcode");
        out
    } else {
        proof {
            if n >= 3 {
                let tail = name@.subrange(n - 3, n as int);
                assert(tail[0] == name@[n - 3] && tail[1] == name@[n - 2] && tail[2] == name@[n
                    - 1]);
                assert(tail != ".md"@);
            }
        }
        let mut out = name.to_owned();
        out.append(".bbcode");
        out
    }
}

} // verus!
