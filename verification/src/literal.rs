//! Literals: from the text of a token to a value.

use crate::base::FileId;
use crate::ir::{Literal, LiteralView, Path, PathAnchor, PathAnchorView, PathView};
use crate::syntax::{LiteralNode, LiteralToken};
use crate::text::{
    chars_of, copy_range, int_of_text, normalize_path, normalize_path_spec, parse_int, string_of,
};
use vstd::prelude::*;
use vstd::string::*;

verus! {

/// The position of the first `/` in `s` at or after `i`, or the length of
/// `s` where there is none.
pub open spec fn slash_from(s: Seq<char>, i: int) -> int
    decreases s.len() - i,
{
    if i >= s.len() {
        s.len() as int
    } else if s[i] == '/' {
        i
    } else {
        slash_from(s, i + 1)
    }
}

/// What a path literal is relative to: the root for a leading `/`, the home
/// directory for a leading `~`, the file `file_id` otherwise.
pub open spec fn path_anchor_spec(file_id: FileId, s: Seq<char>) -> PathAnchorView {
    if s.len() > 0 && s[0] == '/' {
        PathAnchorView::Absolute
    } else if s.len() > 0 && s[0] == '~' {
        PathAnchorView::Home
    } else {
        PathAnchorView::Relative(file_id)
    }
}

/// The path that the token text `s` writes. A `~` is not part of the path
/// itself. Above the root there is nothing, so an absolute path never
/// climbs.
pub open spec fn path_spec(file_id: FileId, s: Seq<char>) -> PathView {
    let anchor = path_anchor_spec(file_id, s);
    let body = if anchor == PathAnchorView::Home {
        s.skip(1)
    } else {
        s
    };
    let n = normalize_path_spec(body);
    PathView {
        anchor,
        supers: if anchor == PathAnchorView::Absolute {
            0
        } else {
            n.0
        },
        raw_segments: n.1,
    }
}

/// What stands between the first and the last character of `s`.
pub open spec fn without_brackets(s: Seq<char>) -> Seq<char> {
    if s.len() >= 2 {
        s.subrange(1, s.len() - 1)
    } else {
        Seq::empty()
    }
}

/// The search path that the token text `s` writes: between `<` and `>`, the
/// name up to the first `/` and, after it, a path below that name.
pub open spec fn search_path_spec(s: Seq<char>) -> PathView {
    let inner = without_brackets(s);
    let cut = slash_from(inner, 0);
    let rest = if cut < inner.len() {
        inner.skip(cut + 1)
    } else {
        Seq::empty()
    };
    let n = normalize_path_spec(rest);
    PathView { anchor: PathAnchorView::Search(inner.take(cut)), supers: n.0, raw_segments: n.1 }
}

/// The value of a literal token in the file `file_id`; `None` for an integer
/// that is malformed or too large.
pub open spec fn literal_token_spec(file_id: FileId, token: LiteralToken) -> Option<LiteralView> {
    match token {
        LiteralToken::Int(text) => match int_of_text(text@) {
            Some(i) => Some(LiteralView::Int(i)),
            None => None,
        },
        LiteralToken::Float(bits) => Some(LiteralView::Float(bits)),
        LiteralToken::Uri(text) => Some(LiteralView::String(text@)),
        LiteralToken::Path(text) => Some(LiteralView::Path(path_spec(file_id, text@))),
        LiteralToken::SearchPath(text) => Some(LiteralView::Path(search_path_spec(text@))),
    }
}

/// The value of a literal node; `None` where it has no token.
pub open spec fn lower_literal_spec(file_id: FileId, lit: LiteralNode) -> Option<LiteralView> {
    match lit.token {
        Some(token) => literal_token_spec(file_id, token),
        None => None,
    }
}

/// The path literal written by `text` in the file `file_id`.
pub fn lower_path(file_id: FileId, text: &str) -> (p: Path)
    ensures
        p@ == path_spec(file_id, text@),
{
    let v = chars_of(text);
    if v.len() > 0 && v[0] == '/' {
        let (_, raw_segments) = normalize_path(&v, 0);
        proof {
            assert(v@.skip(0) =~= v@);
        }
        Path { anchor: PathAnchor::Absolute, supers: 0, raw_segments }
    } else if v.len() > 0 && v[0] == '~' {
        let (supers, raw_segments) = normalize_path(&v, 1);
        Path { anchor: PathAnchor::Home, supers, raw_segments }
    } else {
        let (supers, raw_segments) = normalize_path(&v, 0);
        proof {
            assert(v@.skip(0) =~= v@);
        }
        Path { anchor: PathAnchor::Relative(file_id), supers, raw_segments }
    }
}

/// The search path literal written by `text`.
pub fn lower_search_path(text: &str) -> (p: Path)
    ensures
        p@ == search_path_spec(text@),
{
    let v = chars_of(text);
    let n = v.len();
    if n < 2 {
        let empty: Vec<char> = Vec::new();
        let (supers, raw_segments) = normalize_path(&empty, 0);
        let name = String::new();
        proof {
            let inner = without_brackets(v@);
            assert(inner =~= Seq::<char>::empty());
            assert(slash_from(inner, 0) == 0);
            assert(inner.take(0) =~= Seq::<char>::empty());
            assert(empty@.skip(0) =~= Seq::<char>::empty());
        }
        return Path { anchor: PathAnchor::Search(name), supers, raw_segments };
    }
    let end = n - 1;
    let ghost inner = without_brackets(v@);
    let mut cut: usize = 1;
    while cut < end && v[cut] != '/'
        invariant
            1 <= cut <= end,
            end == n - 1,
            n == v.len(),
            inner == v@.subrange(1, end as int),
            slash_from(inner, 0) == slash_from(inner, cut - 1),
        decreases end - cut,
    {
        cut += 1;
    }
    let name = string_of(&v, 1, cut);
    proof {
        assert(slash_from(inner, 0) == cut - 1);
        assert(inner.take(cut - 1) =~= v@.subrange(1, cut as int));
    }
    if cut < end {
        let rest = copy_range(&v, cut + 1, end);
        let (supers, raw_segments) = normalize_path(&rest, 0);
        proof {
            assert(rest@.skip(0) =~= inner.skip(cut - 1 + 1));
        }
        Path { anchor: PathAnchor::Search(name), supers, raw_segments }
    } else {
        let empty: Vec<char> = Vec::new();
        let (supers, raw_segments) = normalize_path(&empty, 0);
        proof {
            assert(empty@.skip(0) =~= Seq::<char>::empty());
        }
        Path { anchor: PathAnchor::Search(name), supers, raw_segments }
    }
}

/// The value of a literal token in the file `file_id`.
pub fn lower_literal_token(file_id: FileId, token: &LiteralToken) -> (r: Option<Literal>)
    ensures
        match r {
            Some(l) => literal_token_spec(file_id, *token) == Some(l@),
            None => literal_token_spec(file_id, *token).is_none(),
        },
{
    match token {
        LiteralToken::Int(text) => match parse_int(text.as_str()) {
            Some(i) => Some(Literal::Int(i)),
            None => None,
        },
        LiteralToken::Float(bits) => Some(Literal::Float(*bits)),
        LiteralToken::Uri(text) => Some(Literal::String(text.clone())),
        LiteralToken::Path(text) => Some(Literal::Path(lower_path(file_id, text.as_str()))),
        LiteralToken::SearchPath(text) => Some(Literal::Path(lower_search_path(text.as_str()))),
    }
}

} // verus!
