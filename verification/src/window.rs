//! The window title module's logic: finding the focused window's title in an
//! `activewindow` reply, and naming it the way neovim names a buffer.

use vstd::prelude::*;

use crate::text::{
    chars_of, has_prefix_at, lines, lines_of, push_str, string_of, string_of_range, strip_prefix,
    trim, trim_at,
};

verus! {

/// The title that one line of an `activewindow` reply gives: the rest of a
/// `title:` property line, both trimmed. `initialTitle:` is a property of its
/// own and gives none.
pub open spec fn line_title(line: Seq<char>) -> Option<Seq<char>> {
    match strip_prefix(trim(line), "title:"@) {
        Some(rest) => Some(trim(rest)),
        None => None,
    }
}

/// The first non-empty title that `ls` gives. A window that has not named
/// itself yet has no name here.
pub open spec fn first_title(ls: Seq<Seq<char>>) -> Option<Seq<char>>
    decreases ls.len(),
{
    if ls.len() == 0 {
        None
    } else {
        match first_title(ls.drop_last()) {
            Some(t) => Some(t),
            None => match line_title(ls.last()) {
                Some(t) => if t.len() > 0 {
                    Some(t)
                } else {
                    None
                },
                None => None,
            },
        }
    }
}

/// The focused window's title in an `activewindow` reply.
pub open spec fn reply_title(reply: Seq<char>) -> Option<Seq<char>> {
    first_title(lines(reply))
}

proof fn lemma_first_title_nonempty(ls: Seq<Seq<char>>)
    ensures
        first_title(ls) matches Some(t) ==> t.len() > 0,
    decreases ls.len(),
{
    if ls.len() > 0 {
        lemma_first_title_nonempty(ls.drop_last());
    }
}

/// The focused window's title, read from Hyprland's `activewindow` reply, or
/// `None` when nothing is focused or the window has no title yet.
pub fn title_from_reply(reply: &str) -> (title: Option<String>)
    ensures
        match title {
            Some(t) => reply_title(reply@) == Some(t@),
            None => reply_title(reply@) is None,
        },
        title matches Some(t) ==> t@.len() > 0,
{
    let v = chars_of(reply);
    let bounds = lines_of(&v);
    let prefix = chars_of("title:");
    let mut found: Option<String> = None;
    let mut k: usize = 0;
    while k < bounds.len()
        invariant
            v@ == reply@,
            prefix@ == "title:"@,
            bounds.len() == lines(v@).len(),
            forall|m: int|
                0 <= m < bounds.len() ==> {
                    &&& (#[trigger] bounds@[m]).0 <= bounds@[m].1 <= v.len()
                    &&& v@.subrange(bounds@[m].0 as int, bounds@[m].1 as int) == lines(v@)[m]
                },
            0 <= k <= bounds.len(),
            match found {
                Some(t) => first_title(lines(v@).take(k as int)) == Some(t@),
                None => first_title(lines(v@).take(k as int)) is None,
            },
        decreases bounds.len() - k,
    {
        let ghost line = lines(v@)[k as int];
        assert(lines(v@).take(k + 1).drop_last() =~= lines(v@).take(k as int));
        assert(lines(v@).take(k + 1).last() == line);
        if found.is_none() {
            let (a0, b0) = bounds[k];
            let (a, b) = trim_at(&v, a0, b0);
            if has_prefix_at(&v, a, b, &prefix) {
                let rest = a + prefix.len();
                assert(trim(line).skip(prefix.len() as int) =~= v@.subrange(rest as int, b as int));
                let (c, d) = trim_at(&v, rest, b);
                if c < d {
                    found = Some(string_of_range(&v, c, d));
                }
            }
        }
        k = k + 1;
    }
    assert(lines(v@).take(bounds.len() as int) =~= lines(v@));
    proof {
        lemma_first_title_nonempty(lines(v@));
    }
    found
}

/// The text of the window title label: `win/<title>.win`, or nothing when
/// there is no title to show.
pub fn window_label(title: Option<&str>) -> (text: String)
    ensures
        match title {
            Some(t) => text@ == "win/"@ + t@ + ".win"@,
            None => text@ == Seq::<char>::empty(),
        },
{
    let mut out: Vec<char> = Vec::new();
    match title {
        Some(t) => {
            push_str(&mut out, "win/");
            push_str(&mut out, t);
            push_str(&mut out, ".win");
        },
        None => {},
    }
    string_of(&out)
}


/// Whether `line`, trimmed, is a `title:` property with a non-empty value.
pub open spec fn names_a_title(line: Seq<char>) -> bool {
    exists|r: Seq<char>| trim(line) == "title:"@ + r && #[trigger] trim(r).len() > 0
}

proof fn lemma_line_title_of(line: Seq<char>)
    ensures
        line_title(line) matches Some(t) ==> exists|r: Seq<char>|
            trim(line) == "title:"@ + r && #[trigger] trim(r) == t,
{
    let p = "title:"@;
    if let Some(t) = line_title(line) {
        let r = trim(line).skip(p.len() as int);
        assert(trim(line) =~= p + r);
        assert(trim(r) == t);
    }
}

proof fn lemma_line_title_given(line: Seq<char>, r: Seq<char>)
    requires
        trim(line) == "title:"@ + r,
    ensures
        line_title(line) == Some(trim(r)),
{
    let p = "title:"@;
    assert(trim(line).take(p.len() as int) =~= p);
    assert(trim(line).skip(p.len() as int) =~= r);
}

/// No line names a title, so there is none.
pub proof fn law_no_titled_line_no_title(ls: Seq<Seq<char>>)
    requires
        forall|j: int| 0 <= j < ls.len() ==> !names_a_title(#[trigger] ls[j]),
    ensures
        first_title(ls) is None,
    decreases ls.len(),
{
    if ls.len() > 0 {
        assert forall|j: int| 0 <= j < ls.drop_last().len() implies !names_a_title(
            #[trigger] ls.drop_last()[j],
        ) by {
            assert(ls.drop_last()[j] == ls[j]);
        }
        law_no_titled_line_no_title(ls.drop_last());
        let line = ls.last();
        lemma_line_title_of(line);
        assert(!names_a_title(ls[ls.len() - 1]));
        if let Some(t) = line_title(line) {
            let r = choose|r: Seq<char>| trim(line) == "title:"@ + r && #[trigger] trim(r) == t;
            assert(trim(r).len() == 0);
        }
    }
}

/// The title is the first `title:` line with a non-empty value, that value
/// trimmed and whole, whatever its length.
pub proof fn law_title_is_first_titled_line(ls: Seq<Seq<char>>, k: int, r: Seq<char>)
    requires
        0 <= k < ls.len(),
        trim(ls[k]) == "title:"@ + r,
        trim(r).len() > 0,
        forall|j: int| 0 <= j < k ==> !names_a_title(#[trigger] ls[j]),
    ensures
        first_title(ls) == Some(trim(r)),
    decreases ls.len(),
{
    if k < ls.len() - 1 {
        assert forall|j: int| 0 <= j < k implies !names_a_title(#[trigger] ls.drop_last()[j]) by {
            assert(ls.drop_last()[j] == ls[j]);
        }
        assert(ls.drop_last()[k] == ls[k]);
        law_title_is_first_titled_line(ls.drop_last(), k, r);
    } else {
        assert forall|j: int| 0 <= j < ls.drop_last().len() implies !names_a_title(
            #[trigger] ls.drop_last()[j],
        ) by {
            assert(ls.drop_last()[j] == ls[j]);
        }
        law_no_titled_line_no_title(ls.drop_last());
        lemma_line_title_given(ls[k], r);
    }
}

} // verus!
