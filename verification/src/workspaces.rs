//! The workspaces module's logic: reading workspace IDs out of Hyprland's
//! plain-text replies, laying out the row of cells, and the dispatcher that
//! a click on a cell sends.

use vstd::prelude::*;

use crate::text::{
    chars_of, decimal, first_word, first_word_at, has_prefix_at, lines, lines_of, parse_i32,
    parse_i32_at, push_decimal, push_str, string_of, strip_prefix,
};

verus! {

broadcast use vstd::seq_lib::group_to_multiset_ensures;

/// The ID that a line of a `workspaces` or `activeworkspace` reply gives,
/// when it is a header such as `workspace ID 3 (3) on monitor DP-1:`.
pub open spec fn header_id(line: Seq<char>) -> Option<i32> {
    match strip_prefix(line, "workspace ID "@) {
        Some(rest) => match first_word(rest) {
            Some(word) => parse_i32(word),
            None => None,
        },
        None => None,
    }
}

/// The positive header IDs of `ls`, in order.
pub open spec fn ids_of_lines(ls: Seq<Seq<char>>) -> Seq<i32>
    decreases ls.len(),
{
    if ls.len() == 0 {
        seq![]
    } else {
        let earlier = ids_of_lines(ls.drop_last());
        match header_id(ls.last()) {
            Some(id) => if id > 0 {
                earlier.push(id)
            } else {
                earlier
            },
            None => earlier,
        }
    }
}

/// The workspaces that a reply names, in the order it names them; special
/// workspaces, whose IDs are not positive, are left out.
pub open spec fn reply_ids(reply: Seq<char>) -> Seq<i32> {
    ids_of_lines(lines(reply))
}

/// Special workspaces never make it into the list: every ID it holds is
/// positive.
pub proof fn law_ids_are_positive(ls: Seq<Seq<char>>)
    ensures
        forall|k: int| 0 <= k < ids_of_lines(ls).len() ==> #[trigger] ids_of_lines(ls)[k] > 0,
    decreases ls.len(),
{
    if ls.len() > 0 {
        law_ids_are_positive(ls.drop_last());
        let earlier = ids_of_lines(ls.drop_last());
        assert forall|k: int| 0 <= k < ids_of_lines(ls).len() implies #[trigger] ids_of_lines(ls)[k]
            > 0 by {
            if k < earlier.len() {
                assert(earlier[k] > 0);
            }
        }
    }
}

/// The workspace IDs in a `workspaces` or `activeworkspace` reply.
pub fn workspace_ids(reply: &str) -> (ids: Vec<i32>)
    ensures
        ids@ == reply_ids(reply@),
        forall|k: int| 0 <= k < ids.len() ==> #[trigger] ids@[k] > 0,
{
    let v = chars_of(reply);
    let bounds = lines_of(&v);
    let header = chars_of("workspace ID ");
    let mut out: Vec<i32> = Vec::new();
    let mut k: usize = 0;
    while k < bounds.len()
        invariant
            v@ == reply@,
            header@ == "workspace ID "@,
            bounds.len() == lines(v@).len(),
            forall|m: int|
                0 <= m < bounds.len() ==> {
                    &&& (#[trigger] bounds@[m]).0 <= bounds@[m].1 <= v.len()
                    &&& v@.subrange(bounds@[m].0 as int, bounds@[m].1 as int) == lines(v@)[m]
                },
            0 <= k <= bounds.len(),
            out@ == ids_of_lines(lines(v@).take(k as int)),
        decreases bounds.len() - k,
    {
        let (a, b) = bounds[k];
        let ghost line = lines(v@)[k as int];
        assert(lines(v@).take(k + 1).drop_last() =~= lines(v@).take(k as int));
        assert(lines(v@).take(k + 1).last() == line);
        let mut found: Option<i32> = None;
        if has_prefix_at(&v, a, b, &header) {
            let rest = a + header.len();
            assert(line.skip(header.len() as int) =~= v@.subrange(rest as int, b as int));
            match first_word_at(&v, rest, b) {
                Some((c, d)) => {
                    found = parse_i32_at(&v, c, d);
                },
                None => {},
            }
        }
        assert(found == header_id(line));
        match found {
            Some(id) => {
                if id > 0 {
                    out.push(id);
                }
            },
            None => {},
        }
        k = k + 1;
    }
    assert(lines(v@).take(bounds.len() as int) =~= lines(v@));
    proof {
        law_ids_are_positive(lines(v@));
    }
    out
}

/// Whether `s` is in ascending order.
pub open spec fn ascending(s: Seq<i32>) -> bool {
    forall|i: int, j: int| 0 <= i <= j < s.len() ==> s[i] <= s[j]
}

/// Sorts `ids` into ascending order, keeping every ID as often as it occurs.
pub fn sort_ids(ids: &mut Vec<i32>)
    ensures
        ascending(final(ids)@),
        final(ids)@.to_multiset() == old(ids)@.to_multiset(),
{
    let mut out: Vec<i32> = Vec::new();
    let mut k: usize = 0;
    while k < ids.len()
        invariant
            0 <= k <= ids.len(),
            ascending(out@),
            out@.to_multiset() == ids@.take(k as int).to_multiset(),
        decreases ids.len() - k,
    {
        let x = ids[k];
        let mut p: usize = 0;
        while p < out.len() && out[p] <= x
            invariant
                0 <= p <= out.len(),
                forall|m: int| 0 <= m < p ==> out@[m] <= x,
            decreases out.len() - p,
        {
            p = p + 1;
        }
        let ghost before = out@;
        out.insert(p, x);
        proof {
            vstd::seq_lib::to_multiset_insert(before, p as int, x);
            assert(ids@.take(k + 1) =~= ids@.take(k as int).push(x));
            assert(out@ =~= before.insert(p as int, x));
            assert forall|i: int, j: int| 0 <= i <= j < out@.len() implies out@[i] <= out@[j] by {
                if j < p {
                } else if j == p {
                    if i < p {
                        assert(before[i] <= x);
                    }
                } else if i < p {
                    assert(before[i] <= x);
                    assert(p < before.len());
                    assert(x < before[p as int]);
                    assert(before[p as int] <= before[j - 1]);
                } else if i == p {
                    assert(x < before[p as int]);
                    assert(before[p as int] <= before[j - 1]);
                } else {
                    assert(before[i - 1] <= before[j - 1]);
                }
            }
        }
        k = k + 1;
    }
    assert(ids@.take(ids.len() as int) =~= ids@);
    *ids = out;
}


/// One cell of the workspace row.
#[derive(Clone, Copy, Debug, PartialEq, Eq)]
pub struct WorkspaceCell {
    /// The workspace the cell shows and switches to.
    pub id: i32,
    /// Whether it is the active workspace.
    pub active: bool,
}

/// The active workspace that an `activeworkspace` reply names: the first.
pub open spec fn active_id(active_reply: Seq<char>) -> Option<i32> {
    let ids = reply_ids(active_reply);
    if ids.len() > 0 {
        Some(ids[0])
    } else {
        None
    }
}

/// The IDs of a row of cells, left to right.
pub open spec fn cell_ids(cells: Seq<WorkspaceCell>) -> Seq<i32> {
    cells.map_values(|c: WorkspaceCell| c.id)
}

/// The row of cells for Hyprland's current state: one cell per workspace of
/// the `workspaces` reply, in ascending order of ID, and marked active where
/// its ID is the one the `activeworkspace` reply names first.
pub fn workspace_cells(workspaces_reply: &str, active_reply: &str) -> (cells: Vec<WorkspaceCell>)
    ensures
        ascending(cell_ids(cells@)),
        cell_ids(cells@).to_multiset() == reply_ids(workspaces_reply@).to_multiset(),
        forall|k: int|
            0 <= k < cells.len() ==> (#[trigger] cells@[k]).active == (active_id(active_reply@)
                == Some(cells@[k].id)),
{
    let mut ids = workspace_ids(workspaces_reply);
    let actives = workspace_ids(active_reply);
    let active: Option<i32> = if actives.len() > 0 {
        Some(actives[0])
    } else {
        None
    };
    sort_ids(&mut ids);
    let mut cells: Vec<WorkspaceCell> = Vec::new();
    let mut k: usize = 0;
    while k < ids.len()
        invariant
            0 <= k <= ids.len(),
            active == active_id(active_reply@),
            cells.len() == k,
            forall|m: int| 0 <= m < k ==> (#[trigger] cells@[m]).id == ids@[m],
            forall|m: int|
                0 <= m < k ==> (#[trigger] cells@[m]).active == (active == Some(cells@[m].id)),
        decreases ids.len() - k,
    {
        let id = ids[k];
        let is_active = match active {
            Some(a) => a == id,
            None => false,
        };
        cells.push(WorkspaceCell { id, active: is_active });
        k = k + 1;
    }
    assert(cell_ids(cells@) =~= ids@);
    cells
}

/// The dispatcher that switches to workspace `id`, as Hyprland 0.55+ spells it.
pub open spec fn focus_dispatcher(id: int) -> Seq<char> {
    "hl.dsp.focus({ workspace = \""@ + decimal(id) + "\" })"@
}

/// The dispatcher that a click on workspace `id`'s cell sends.
pub fn focus_workspace_dispatcher(id: i32) -> (lua: String)
    ensures
        lua@ == focus_dispatcher(id as int),
{
    let mut out: Vec<char> = Vec::new();
    push_str(&mut out, "hl.dsp.focus({ workspace = \"");
    push_decimal(&mut out, id);
    push_str(&mut out, "\" })");
    string_of(&out)
}


/// A header names its workspace: `workspace ID <n>`, followed by nothing or
/// by whitespace and anything, gives `n`, for every `i32`.
pub proof fn law_header_names_its_workspace(n: i32, rest: Seq<char>)
    requires
        rest.len() == 0 || crate::text::is_space(rest[0]),
    ensures
        header_id("workspace ID "@ + decimal(n as int) + rest) == Some(n),
{
    let p = "workspace ID "@;
    let d = decimal(n as int);
    let line = p + d + rest;
    assert(line.take(p.len() as int) =~= p);
    assert(line.skip(p.len() as int) =~= d + rest);
    crate::text::lemma_decimal_has_no_space(n as int);
    assert(crate::text::trim_start(d + rest) == d + rest) by {
        assert((d + rest)[0] == d[0]);
    }
    crate::text::lemma_leading_word_of(d, rest);
    crate::text::law_parse_reads_decimal(n);
}

/// Every positive workspace that a line names is in the list, whatever its
/// ID; and everything in the list was named, positive, by some line.
pub proof fn law_ids_are_the_named_workspaces(ls: Seq<Seq<char>>)
    ensures
        forall|k: int|
            0 <= k < ls.len() && #[trigger] header_id(ls[k]) is Some && header_id(ls[k])->0 > 0
                ==> ids_of_lines(ls).contains(header_id(ls[k])->0),
        forall|m: int|
            0 <= m < ids_of_lines(ls).len() ==> exists|k: int|
                0 <= k < ls.len() && #[trigger] header_id(ls[k]) == Some(
                    #[trigger] ids_of_lines(ls)[m],
                ) && ids_of_lines(ls)[m] > 0,
    decreases ls.len(),
{
    if ls.len() > 0 {
        let init = ls.drop_last();
        law_ids_are_the_named_workspaces(init);
        let earlier = ids_of_lines(init);
        let ids = ids_of_lines(ls);
        assert forall|k: int|
            0 <= k < ls.len() && #[trigger] header_id(ls[k]) is Some && header_id(ls[k])->0 > 0 implies ids.contains(
            header_id(ls[k])->0,
        ) by {
            let n = header_id(ls[k])->0;
            if k < ls.len() - 1 {
                assert(init[k] == ls[k]);
                assert(header_id(init[k]) == Some(n));
                assert(earlier.contains(n));
                let j = choose|j: int| 0 <= j < earlier.len() && earlier[j] == n;
                assert(ids[j] == n);
            } else {
                assert(ids[ids.len() - 1] == n);
            }
        }
        assert forall|m: int| 0 <= m < ids.len() implies exists|k: int|
            0 <= k < ls.len() && #[trigger] header_id(ls[k]) == Some(#[trigger] ids[m]) && ids[m]
                > 0 by {
            if m < earlier.len() {
                assert(ids[m] == earlier[m]);
                let k = choose|k: int|
                    0 <= k < init.len() && #[trigger] header_id(init[k]) == Some(earlier[m])
                        && earlier[m] > 0;
                assert(init[k] == ls[k]);
            } else {
                assert(header_id(ls[ls.len() - 1]) == Some(ids[m]));
            }
        }
    }
}

/// A reply whose line `k` is the header of positive workspace `n` lists `n`.
pub proof fn law_reply_lists_its_headers(reply: Seq<char>, k: int, n: i32, rest: Seq<char>)
    requires
        0 <= k < lines(reply).len(),
        lines(reply)[k] == "workspace ID "@ + decimal(n as int) + rest,
        rest.len() == 0 || crate::text::is_space(rest[0]),
        n > 0,
    ensures
        reply_ids(reply).contains(n),
{
    law_header_names_its_workspace(n, rest);
    law_ids_are_the_named_workspaces(lines(reply));
    assert(header_id(lines(reply)[k]) == Some(n));
}

/// The click dispatcher names the clicked workspace: it is the focus
/// dispatcher around a numeral that reads back as `id`, for every `id`.
pub proof fn law_dispatcher_names_the_workspace(id: i32)
    ensures
        exists|numeral: Seq<char>|
            focus_dispatcher(id as int) == "hl.dsp.focus({ workspace = \""@ + numeral + "\" })"@
                && #[trigger] parse_i32(numeral) == Some(id),
{
    crate::text::law_parse_reads_decimal(id);
    assert(parse_i32(decimal(id as int)) == Some(id));
}

} // verus!
