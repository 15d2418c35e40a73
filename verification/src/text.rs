//! Work on the text of tokens: integers, paths and escape sequences.

use vstd::prelude::*;
use vstd::string::*;

verus! {

/// The characters of `s`, as a vector.
pub fn chars_of(s: &str) -> (v: Vec<char>)
    ensures
        v@ == s@,
{
    let mut v: Vec<char> = Vec::new();
    for c in it: s.chars()
        invariant
            v@ == it.seq().take(it.index()),
            it.seq() == s@,
    {
        v.push(c);
    }
    v
}

/// `String::push`: appends one character.
#[verifier::external_body]
fn push_char(s: &mut String, c: char)
    ensures
        final(s)@ == old(s)@.push(c),
{
    s.push(c)
}

/// The text made of the characters `v[from..to]`.
pub fn string_of(v: &Vec<char>, from: usize, to: usize) -> (s: String)
    requires
        from <= to <= v.len(),
    ensures
        s@ == v@.subrange(from as int, to as int),
{
    let mut s = String::new();
    let mut i = from;
    while i < to
        invariant
            from <= i <= to <= v.len(),
            s@ == v@.subrange(from as int, i as int),
        decreases to - i,
    {
        push_char(&mut s, v[i]);
        proof {
            assert(v@.subrange(from as int, i + 1) =~= v@.subrange(from as int, i as int).push(
                v@[i as int],
            ));
        }
        i += 1;
    }
    s
}

/// Whether every character of `s` is a decimal digit.
pub open spec fn all_digits(s: Seq<char>) -> bool {
    forall|i: int| 0 <= i < s.len() ==> '0' <= #[trigger] s[i] <= '9'
}

/// The number that the decimal digits `s` write.
pub open spec fn digits_value(s: Seq<char>) -> int
    decreases s.len(),
{
    if s.len() == 0 {
        0
    } else {
        digits_value(s.drop_last()) * 10 + (s.last() as int - '0' as int)
    }
}

/// The integer that `s` writes in decimal: an optional sign, then at least
/// one digit and nothing else; `None` where `s` is not of that form or the
/// number does not fit in 64 bits.
pub open spec fn int_of_text(s: Seq<char>) -> Option<i64> {
    let negative = s.len() > 0 && s[0] == '-';
    let signed = s.len() > 0 && (s[0] == '-' || s[0] == '+');
    let digits = if signed {
        s.skip(1)
    } else {
        s
    };
    let value = if negative {
        -digits_value(digits)
    } else {
        digits_value(digits)
    };
    if digits.len() > 0 && all_digits(digits) && i64::MIN <= value <= i64::MAX {
        Some(value as i64)
    } else {
        None
    }
}

/// `str::parse::<i64>`: the integer that `text` writes in decimal, as the
/// standard library documents it: an optional `+` or `-`, then only digits,
/// at least one; an error, here `None`, on anything else and on overflow.
#[verifier::external_body]
pub(crate) fn parse_int(text: &str) -> (r: Option<i64>)
    ensures
        r == int_of_text(text@),
{
    text.parse::<i64>().ok()
}

/// The segments of `s` between slashes: the one that starts at `start`, as
/// far as it is known at `i`, and all that follow.
pub open spec fn split_from(s: Seq<char>, start: int, i: int) -> Seq<Seq<char>>
    decreases s.len() - i,
{
    if i >= s.len() {
        seq![s.subrange(start, s.len() as int)]
    } else if s[i] == '/' {
        seq![s.subrange(start, i)] + split_from(s, i + 1, i + 1)
    } else {
        split_from(s, start, i + 1)
    }
}

/// `s` cut at every `/`. There is one segment more than there are slashes, and
/// segments may be empty.
pub open spec fn split_slash(s: Seq<char>) -> Seq<Seq<char>> {
    split_from(s, 0, 0)
}

/// One step of path normalization. `acc` holds the number of steps above the
/// anchor and the segments kept so far. An empty segment and `.` change
/// nothing; `..` takes back the last kept segment or, where none is left,
/// climbs one step higher; any other segment is kept.
pub open spec fn normalize_step(acc: (nat, Seq<Seq<char>>), seg: Seq<char>) -> (
    nat,
    Seq<Seq<char>>,
) {
    if seg.len() == 0 || seg == seq!['.'] {
        acc
    } else if seg == seq!['.', '.'] {
        if acc.1.len() == 0 {
            ((acc.0 + 1) as nat, acc.1)
        } else {
            (acc.0, acc.1.drop_last())
        }
    } else {
        (acc.0, acc.1.push(seg))
    }
}

/// The segments `segs` normalized, from left to right.
pub open spec fn normalize_segments(segs: Seq<Seq<char>>) -> (nat, Seq<Seq<char>>)
    decreases segs.len(),
{
    if segs.len() == 0 {
        (0, Seq::empty())
    } else {
        normalize_step(normalize_segments(segs.drop_last()), segs.last())
    }
}

/// The segments `segs` with a `/` between each two.
pub open spec fn join_slash(segs: Seq<Seq<char>>) -> Seq<char>
    decreases segs.len(),
{
    if segs.len() == 0 {
        Seq::empty()
    } else if segs.len() == 1 {
        segs[0]
    } else {
        join_slash(segs.drop_last()) + seq!['/'] + segs.last()
    }
}

/// The path `s` normalized: how many steps it climbs above its anchor, and
/// the segments that it then descends, joined by `/`.
pub open spec fn normalize_path_spec(s: Seq<char>) -> (nat, Seq<char>) {
    let n = normalize_segments(split_slash(s));
    (n.0, join_slash(n.1))
}

proof fn lemma_normalize_push(done: Seq<Seq<char>>, seg: Seq<char>)
    ensures
        normalize_segments(done.push(seg)) == normalize_step(normalize_segments(done), seg),
{
    assert(done.push(seg).drop_last() =~= done);
}

/// The views of the segments held in `kept`.
pub open spec fn segment_views(kept: Seq<Vec<char>>) -> Seq<Seq<char>> {
    kept.map_values(|v: Vec<char>| v@)
}

fn is_dot(v: &Vec<char>, from: usize, to: usize) -> (r: bool)
    requires
        from <= to <= v.len(),
    ensures
        r == (v@.subrange(from as int, to as int) == seq!['.']),
{
    let r = to - from == 1 && v[from] == '.';
    proof {
        let s = v@.subrange(from as int, to as int);
        if r {
            assert(s =~= seq!['.']);
        } else if s == seq!['.'] {
            assert(s.len() == 1);
            assert(s[0] == '.');
        }
    }
    r
}

fn is_dot_dot(v: &Vec<char>, from: usize, to: usize) -> (r: bool)
    requires
        from <= to <= v.len(),
    ensures
        r == (v@.subrange(from as int, to as int) == seq!['.', '.']),
{
    let r = to - from == 2 && v[from] == '.' && v[from + 1] == '.';
    proof {
        let s = v@.subrange(from as int, to as int);
        if r {
            assert(s =~= seq!['.', '.']);
        } else if s == seq!['.', '.'] {
            assert(s.len() == 2);
            assert(s[0] == '.');
            assert(s[1] == '.');
        }
    }
    r
}

/// The characters `v[from..to]`, as a vector of their own.
pub fn copy_range(v: &Vec<char>, from: usize, to: usize) -> (r: Vec<char>)
    requires
        from <= to <= v.len(),
    ensures
        r@ == v@.subrange(from as int, to as int),
{
    let mut r: Vec<char> = Vec::new();
    let mut i = from;
    while i < to
        invariant
            from <= i <= to <= v.len(),
            r@ == v@.subrange(from as int, i as int),
        decreases to - i,
    {
        r.push(v[i]);
        proof {
            assert(v@.subrange(from as int, i + 1) =~= v@.subrange(from as int, i as int).push(
                v@[i as int],
            ));
        }
        i += 1;
    }
    r
}

/// The segments `kept`, joined by `/`, as text.
fn join_segments(kept: &Vec<Vec<char>>) -> (s: String)
    ensures
        s@ == join_slash(segment_views(kept@)),
{
    let mut s = String::new();
    let mut i: usize = 0;
    let ghost views = segment_views(kept@);
    while i < kept.len()
        invariant
            i <= kept.len(),
            views == segment_views(kept@),
            s@ == join_slash(views.take(i as int)),
        decreases kept.len() - i,
    {
        if i > 0 {
            push_char(&mut s, '/');
        }
        let seg = &kept[i];
        let ghost before = s@;
        let mut j: usize = 0;
        while j < seg.len()
            invariant
                j <= seg.len(),
                s@ == before + seg@.take(j as int),
            decreases seg.len() - j,
        {
            push_char(&mut s, seg[j]);
            proof {
                assert(seg@.take(j + 1) =~= seg@.take(j as int).push(seg@[j as int]));
                assert(before + seg@.take(j + 1) =~= (before + seg@.take(j as int)).push(
                    seg@[j as int],
                ));
            }
            j += 1;
        }
        proof {
            assert(seg@.take(seg.len() as int) =~= seg@);
            assert(views.take(i + 1).drop_last() =~= views.take(i as int));
            assert(views.take(i + 1).last() == seg@);
            if i == 0 {
                assert(before =~= Seq::<char>::empty());
                assert(s@ =~= seg@);
            }
        }
        i += 1;
    }
    proof {
        assert(views.take(kept.len() as int) =~= views);
    }
    s
}

/// Normalizes the path written in `v[from..]`: cuts it at every `/`, drops
/// empty segments and `.`, and lets each `..` take back the segment before it
/// or, where none is left, climb one step above the anchor.
pub fn normalize_path(v: &Vec<char>, from: usize) -> (r: (usize, String))
    requires
        from <= v.len(),
    ensures
        r.0 == normalize_path_spec(v@.skip(from as int)).0,
        r.1@ == normalize_path_spec(v@.skip(from as int)).1,
{
    let ghost s = v@.skip(from as int);
    let mut supers: usize = 0;
    let mut kept: Vec<Vec<char>> = Vec::new();
    let ghost mut done: Seq<Seq<char>> = Seq::empty();
    let mut start: usize = from;
    let mut i: usize = from;
    proof {
        assert(segment_views(kept@) =~= Seq::empty());
    }
    while i < v.len()
        invariant
            from <= start <= i <= v.len(),
            s == v@.skip(from as int),
            split_slash(s) == done + split_from(s, start - from, i - from),
            (supers as nat, segment_views(kept@)) == normalize_segments(done),
            supers * 2 <= start - from,
        decreases v.len() - i,
    {
        if v[i] == '/' {
            proof {
                assert(s.subrange(start - from, i - from) =~= v@.subrange(start as int, i as int));
                lemma_normalize_push(done, s.subrange(start - from, i - from));
                assert(done + (seq![s.subrange(start - from, i - from)] + split_from(
                    s,
                    i + 1 - from,
                    i + 1 - from,
                )) =~= done.push(s.subrange(start - from, i - from)) + split_from(
                    s,
                    i + 1 - from,
                    i + 1 - from,
                ));
                done = done.push(s.subrange(start - from, i - from));
            }
            take_segment_at(v, from, start, i, &mut supers, &mut kept);
            start = i + 1;
        }
        i += 1;
    }
    proof {
        assert(s.subrange(start - from, s.len() as int) =~= v@.subrange(
            start as int,
            v.len() as int,
        ));
        lemma_normalize_push(done, s.subrange(start - from, s.len() as int));
        assert(done + seq![s.subrange(start - from, s.len() as int)] =~= done.push(
            s.subrange(start - from, s.len() as int),
        ));
    }
    take_segment_at(v, from, start, v.len(), &mut supers, &mut kept);
    let joined = join_segments(&kept);
    (supers, joined)
}

/// Takes the segment `v[start..to]` of the path that starts at `from` into
/// the running normalization.
fn take_segment_at(
    v: &Vec<char>,
    from: usize,
    start: usize,
    to: usize,
    supers: &mut usize,
    kept: &mut Vec<Vec<char>>,
)
    requires
        from <= start <= to <= v.len(),
        *old(supers) * 2 <= start - from,
    ensures
        (*final(supers) as nat, segment_views(final(kept)@)) == normalize_step(
            (*old(supers) as nat, segment_views(old(kept)@)),
            v@.subrange(start as int, to as int),
        ),
        *final(supers) * 2 <= to - from,
{
    let ghost seg = v@.subrange(start as int, to as int);
    if start == to || is_dot(v, start, to) {
    } else if is_dot_dot(v, start, to) {
        if kept.len() == 0 {
            *supers = *supers + 1;
        } else {
            kept.pop();
            proof {
                assert(segment_views(kept@) =~= segment_views(old(kept)@).drop_last());
            }
        }
    } else {
        let copy = copy_range(v, start, to);
        kept.push(copy);
        proof {
            assert(segment_views(kept@) =~= segment_views(old(kept)@).push(seg));
        }
    }
}

/// What an escape sequence stands for: a line feed for `\n`, a carriage
/// return for `\r`, a tab for `\t`, and for any other the text that follows
/// its first character.
pub open spec fn unescape_spec(tok: Seq<char>) -> Seq<char> {
    if tok == seq!['\\', 'n'] {
        seq!['\n']
    } else if tok == seq!['\\', 'r'] {
        seq!['\r']
    } else if tok == seq!['\\', 't'] {
        seq!['\t']
    } else if tok.len() > 0 {
        tok.skip(1)
    } else {
        tok
    }
}

/// Appends to `out` what the escape sequence `tok` stands for.
pub fn push_unescaped(out: &mut String, tok: &str)
    ensures
        final(out)@ == old(out)@ + unescape_spec(tok@),
{
    let v = chars_of(tok);
    let n = v.len();
    if n == 2 && v[0] == '\\' && (v[1] == 'n' || v[1] == 'r' || v[1] == 't') {
        let c = if v[1] == 'n' {
            '\n'
        } else if v[1] == 'r' {
            '\r'
        } else {
            '\t'
        };
        push_char(out, c);
        proof {
            assert(v@ =~= seq!['\\', v@[1]]);
            assert(seq!['\\', 'n'] != seq!['\\', 'r']) by {
                assert(seq!['\\', 'n'][1] != seq!['\\', 'r'][1]);
            }
            assert(seq!['\\', 'n'] != seq!['\\', 't']) by {
                assert(seq!['\\', 'n'][1] != seq!['\\', 't'][1]);
            }
            assert(seq!['\\', 'r'] != seq!['\\', 't']) by {
                assert(seq!['\\', 'r'][1] != seq!['\\', 't'][1]);
            }
            assert(old(out)@.push(c) =~= old(out)@ + seq![c]);
        }
    } else {
        proof {
            if v@ == seq!['\\', 'n'] || v@ == seq!['\\', 'r'] || v@ == seq!['\\', 't'] {
                assert(v@.len() == 2);
                assert(v@[0] == '\\');
                assert(v@[1] == 'n' || v@[1] == 'r' || v@[1] == 't');
            }
        }
        let mut i: usize = if n > 0 {
            1
        } else {
            0
        };
        let ghost first = i;
        while i < n
            invariant
                first <= i <= n,
                n == v.len(),
                out@ == old(out)@ + v@.subrange(first as int, i as int),
            decreases n - i,
        {
            push_char(out, v[i]);
            proof {
                assert(old(out)@ + v@.subrange(first as int, i + 1) =~= (old(out)@ + v@.subrange(
                    first as int,
                    i as int,
                )).push(v@[i as int]));
            }
            i += 1;
        }
        proof {
            assert(v@.subrange(first as int, n as int) =~= unescape_spec(v@));
        }
    }
}

} // verus!
