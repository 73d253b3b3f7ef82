//! The listing assembler: hidden-entry filtering, sorting by display
//! name, column-width computation and final line assembly.

use vstd::prelude::*;
use vstd::string::*;
use vstd::multiset::Multiset;
use crate::entry::{classify, keeps, spec_classify, spec_glyph, type_glyph, DisplayMode, Entry};
use crate::identity::{resolve_group, resolve_user};
use crate::numfmt::{
    dec_width, decimal_string, pad_left, pad_right, spec_decimal, spec_pad_left, spec_pad_right,
};
use crate::perms::{format_permissions, spec_permissions};
use crate::identity::spec_fallback;
use crate::style::{esc_free, styled_as, styled_name};
use crate::timefmt::{format_time, time_label, TIME_IN_RANGE};
use crate::strutil::{
    lemma_lex_antisym, lemma_lex_refl, lemma_lex_total, lemma_lex_trans, lex_le, str_le,
};

verus! {

broadcast use vstd::seq_lib::group_to_multiset_ensures;

/// The entries surviving the hidden-entry policy, in their original
/// order: all of them when `show_all` holds, else those not hidden.
pub open spec fn spec_filter(s: Seq<Entry>, show_all: bool) -> Seq<Entry>
    decreases s.len(),
{
    if s.len() == 0 {
        s
    } else {
        let rest = spec_filter(s.drop_last(), show_all);
        if keeps(s.last(), show_all) {
            rest.push(s.last())
        } else {
            rest
        }
    }
}

/// The filter keeps exactly the entries the policy admits: every kept
/// entry passes the policy, every passing entry is kept, and nothing
/// grows.
pub proof fn lemma_filter_keeps(s: Seq<Entry>, show_all: bool)
    ensures
        spec_filter(s, show_all).len() <= s.len(),
        forall|i: int|
            0 <= i < spec_filter(s, show_all).len() ==> keeps(
                #[trigger] spec_filter(s, show_all)[i],
                show_all,
            ),
        forall|i: int|
            0 <= i < s.len() && keeps(s[i], show_all) ==> spec_filter(s, show_all).contains(s[i]),
        forall|e: Entry| spec_filter(s, show_all).contains(e) ==> s.contains(e),
    decreases s.len(),
{
    if s.len() > 0 {
        lemma_filter_keeps(s.drop_last(), show_all);
        let out = spec_filter(s, show_all);
        let rest = spec_filter(s.drop_last(), show_all);
        assert forall|i: int| 0 <= i < s.len() && keeps(s[i], show_all) implies out.contains(
            s[i],
        ) by {
            if i == s.len() - 1 {
                assert(out[out.len() - 1] == s[i]);
            } else {
                assert(s.drop_last()[i] == s[i]);
                assert(rest.contains(s[i]));
                let j = choose|j: int| 0 <= j < rest.len() && rest[j] == s[i];
                assert(out[j] == s[i]);
            }
        }
        assert forall|e: Entry| out.contains(e) implies s.contains(e) by {
            let j = choose|j: int| 0 <= j < out.len() && out[j] == e;
            if j < rest.len() {
                assert(rest[j] == out[j]);
                assert(s.drop_last().contains(e));
                let k = choose|k: int| 0 <= k < s.drop_last().len() && s.drop_last()[k] == e;
                assert(s[k] == e);
            } else {
                assert(s[s.len() - 1] == e);
            }
        }
    }
}

/// Keep the entries the hidden-entry policy admits, in their original
/// order.
pub fn filter_hidden(entries: &Vec<Entry>, show_all: bool) -> (kept: Vec<Entry>)
    ensures
        kept@ == spec_filter(entries@, show_all),
{
    let mut kept: Vec<Entry> = Vec::new();
    let mut i: usize = 0;
    while i < entries.len()
        invariant
            i <= entries@.len(),
            kept@ =~= spec_filter(entries@.take(i as int), show_all),
        decreases entries@.len() - i,
    {
        let e = &entries[i];
        let hidden = if e.name.as_str().unicode_len() > 0 {
            let c = e.name.as_str().get_char(0);
            c == '.'
        } else {
            false
        };
        if show_all || !hidden {
            kept.push(e.clone());
        }
        i = i + 1;
        proof {
            let pre = entries@.take(i as int);
            assert(pre.drop_last() =~= entries@.take(i - 1));
            assert(pre.last() == entries@[i - 1]);
            assert(kept@ =~= spec_filter(pre, show_all));
        }
    }
    proof {
        assert(entries@.take(entries@.len() as int) =~= entries@);
    }
    kept
}

/// The entries stand in nondecreasing order of display name.
pub open spec fn sorted_by_name(s: Seq<Entry>) -> bool {
    forall|i: int, j: int| 0 <= i < j < s.len() ==> lex_le(s[i].name@, s[j].name@)
}

/// Sort the entries by display name, ascending in the codepoint
/// lexicographic order. The result holds exactly the given entries.
pub fn sort_by_name(v: Vec<Entry>) -> (r: Vec<Entry>)
    ensures
        r@.to_multiset() == v@.to_multiset(),
        r@.len() == v@.len(),
        sorted_by_name(r@),
{
    let mut src = v;
    let mut out: Vec<Entry> = Vec::new();
    proof {
        assert(out@.to_multiset().add(src@.to_multiset()) =~= v@.to_multiset());
    }
    while src.len() > 0
        invariant
            out@.to_multiset().add(src@.to_multiset()) == v@.to_multiset(),
            out@.len() + src@.len() == v@.len(),
            sorted_by_name(out@),
            forall|i: int, j: int|
                0 <= i < out@.len() && 0 <= j < src@.len() ==> lex_le(
                    out@[i].name@,
                    src@[j].name@,
                ),
        decreases src@.len(),
    {
        let mut m: usize = 0;
        let mut k: usize = 1;
        proof {
            lemma_lex_refl(src@[0].name@);
        }
        while k < src.len()
            invariant
                src@.len() > 0,
                m < k <= src@.len(),
                forall|t: int| 0 <= t < k ==> lex_le(src@[m as int].name@, #[trigger] src@[t].name@),
            decreases src@.len() - k,
        {
            if !str_le(src[m].name.as_str(), src[k].name.as_str()) {
                proof {
                    lemma_lex_total(src@[m as int].name@, src@[k as int].name@);
                    assert forall|t: int| 0 <= t < k + 1 implies lex_le(
                        src@[k as int].name@,
                        #[trigger] src@[t].name@,
                    ) by {
                        if t == k {
                            lemma_lex_refl(src@[k as int].name@);
                        } else {
                            lemma_lex_trans(
                                src@[k as int].name@,
                                src@[m as int].name@,
                                src@[t].name@,
                            );
                        }
                    }
                }
                m = k;
            }
            k = k + 1;
        }
        let ghost old_src = src@;
        let ghost old_out = out@;
        let e = src.remove(m);
        out.push(e);
        proof {
            assert(out@.to_multiset() =~= old_out.to_multiset().insert(e));
            assert(old_src.to_multiset().count(e) > 0) by {
                assert(old_src[m as int] == e);
                assert(old_src.contains(e));
            }
            assert(src@.to_multiset() =~= old_src.to_multiset().remove(e));
            assert(out@.to_multiset().add(src@.to_multiset()) =~= v@.to_multiset());
            assert forall|i: int, j: int| 0 <= i < j < out@.len() implies lex_le(
                out@[i].name@,
                out@[j].name@,
            ) by {
                if j < out@.len() - 1 {
                    assert(out@[i] == old_out[i] && out@[j] == old_out[j]);
                } else {
                    assert(out@[j] == e);
                    if i < old_out.len() {
                        assert(out@[i] == old_out[i]);
                        assert(lex_le(old_out[i].name@, old_src[m as int].name@));
                    }
                }
            }
            assert forall|i: int, j: int|
                0 <= i < out@.len() && 0 <= j < src@.len() implies #[trigger] lex_le(
                out@[i].name@,
                src@[j].name@,
            ) by {
                let jj = if j < m { j } else { j + 1 };
                assert(src@[j] == old_src[jj]);
                assert(lex_le(e.name@, old_src[jj].name@));
                if i < old_out.len() {
                    assert(out@[i] == old_out[i]);
                    assert(lex_le(old_out[i].name@, old_src[jj].name@));
                } else {
                    assert(out@[i] == e);
                }
            }
        }
    }
    proof {
        assert(src@.to_multiset() =~= Multiset::<Entry>::empty());
        assert(out@.to_multiset().add(src@.to_multiset()) =~= out@.to_multiset());
    }
    out
}

/// The widest decimal rendering of a size in the set; zero for an
/// empty set.
pub open spec fn spec_max_size_width(s: Seq<Entry>) -> nat
    decreases s.len(),
{
    if s.len() == 0 {
        0
    } else {
        let rest = spec_max_size_width(s.drop_last());
        let w = dec_width(s.last().size as nat);
        if w > rest {
            w
        } else {
            rest
        }
    }
}

/// Compute the width of the widest size field over the whole set.
pub fn max_size_width(v: &Vec<Entry>) -> (w: usize)
    ensures
        w as nat == spec_max_size_width(v@),
{
    let mut w: usize = 0;
    let mut i: usize = 0;
    while i < v.len()
        invariant
            i <= v@.len(),
            w as nat == spec_max_size_width(v@.take(i as int)),
        decreases v@.len() - i,
    {
        let s = decimal_string(v[i].size);
        let n = s.as_str().unicode_len();
        if n > w {
            w = n;
        }
        i = i + 1;
        proof {
            let pre = v@.take(i as int);
            assert(pre.drop_last() =~= v@.take(i - 1));
            assert(pre.last() == v@[i - 1]);
        }
    }
    proof {
        assert(v@.take(v@.len() as int) =~= v@);
    }
    w
}

/// The views of a vector of strings.
pub open spec fn views(v: Seq<String>) -> Seq<Seq<char>> {
    v.map_values(|s: String| s@)
}

/// The length of the longest string in the set; zero for an empty set.
pub open spec fn spec_max_width(s: Seq<Seq<char>>) -> nat
    decreases s.len(),
{
    if s.len() == 0 {
        0
    } else {
        let rest = spec_max_width(s.drop_last());
        if s.last().len() > rest {
            s.last().len()
        } else {
            rest
        }
    }
}

/// Compute the length of the longest string over the whole set.
pub fn max_name_width(v: &Vec<String>) -> (w: usize)
    ensures
        w as nat == spec_max_width(views(v@)),
{
    let mut w: usize = 0;
    let mut i: usize = 0;
    while i < v.len()
        invariant
            i <= v@.len(),
            w as nat == spec_max_width(views(v@).take(i as int)),
        decreases v@.len() - i,
    {
        let n = v[i].as_str().unicode_len();
        if n > w {
            w = n;
        }
        i = i + 1;
        proof {
            let pre = views(v@).take(i as int);
            assert(pre.drop_last() =~= views(v@).take(i - 1));
            assert(pre.last() == v@[i - 1]@);
        }
    }
    proof {
        assert(views(v@).take(views(v@).len() as int) =~= views(v@));
    }
    w
}

/// One long-format line: type glyph, nine permission characters, the
/// hard-link count right-aligned to two columns, owner and group names
/// left-aligned to five, the size right-aligned to the set's widest
/// size, the timestamp, and the styled name left-aligned to the set's
/// widest styled name, with single spaces between the fields.
pub open spec fn spec_long_row(
    e: Entry,
    user: Seq<char>,
    group: Seq<char>,
    time: Seq<char>,
    styled: Seq<char>,
    size_w: nat,
    name_w: nat,
) -> Seq<char> {
    spec_glyph(e.kind) + spec_permissions(e.mode_bits) + seq![' '] + spec_pad_left(
        spec_decimal(e.nlink as nat),
        2,
    ) + seq![' '] + spec_pad_right(user, 5) + seq![' '] + spec_pad_right(group, 5) + seq![' ']
        + spec_pad_left(spec_decimal(e.size as nat), size_w) + seq![' '] + time + seq![' ']
        + spec_pad_right(styled, name_w)
}

/// Assemble one long-format line from an entry and its resolved
/// fields.
pub fn render_long_row(
    e: &Entry,
    user: &str,
    group: &str,
    time: &str,
    styled: &str,
    size_w: usize,
    name_w: usize,
) -> (row: String)
    ensures
        row@ == spec_long_row(*e, user@, group@, time@, styled@, size_w as nat, name_w as nat),
{
    let mut row = String::from_str(type_glyph(e.kind));
    let perms = format_permissions(e.mode_bits);
    row.append(perms.as_str());
    row.append(" ");
    let links = decimal_string(e.nlink);
    let links_field = pad_left(links.as_str(), 2);
    row.append(links_field.as_str());
    row.append(" ");
    let user_field = pad_right(user, 5);
    row.append(user_field.as_str());
    row.append(" ");
    let group_field = pad_right(group, 5);
    row.append(group_field.as_str());
    row.append(" ");
    let size = decimal_string(e.size);
    let size_field = pad_left(size.as_str(), size_w);
    row.append(size_field.as_str());
    row.append(" ");
    row.append(time);
    row.append(" ");
    let name_field = pad_right(styled, name_w);
    row.append(name_field.as_str());
    proof {
        reveal_strlit(" ");
        assert(row@ =~= spec_long_row(
            *e,
            user@,
            group@,
            time@,
            styled@,
            size_w as nat,
            name_w as nat,
        ));
    }
    row
}

/// The plain-mode body: each name in order followed by two spaces.
pub open spec fn spec_plain_body(names: Seq<Seq<char>>) -> Seq<char>
    decreases names.len(),
{
    if names.len() == 0 {
        Seq::empty()
    } else {
        spec_plain_body(names.drop_last()) + names.last() + seq![' ', ' ']
    }
}

/// The whole plain-mode text: the body and a single final newline.
pub open spec fn spec_plain_output(names: Seq<Seq<char>>) -> Seq<char> {
    spec_plain_body(names) + seq!['\n']
}

/// Emit the plain listing of the given styled names.
pub fn render_plain(names: &Vec<String>) -> (out: String)
    ensures
        out@ == spec_plain_output(views(names@)),
{
    let mut out = String::new();
    let mut i: usize = 0;
    while i < names.len()
        invariant
            i <= names@.len(),
            out@ =~= spec_plain_body(views(names@).take(i as int)),
        decreases names@.len() - i,
    {
        out.append(names[i].as_str());
        out.append("  ");
        i = i + 1;
        proof {
            reveal_strlit("  ");
            let pre = views(names@).take(i as int);
            assert(pre.drop_last() =~= views(names@).take(i - 1));
            assert(pre.last() == names@[i - 1]@);
            assert(out@ =~= spec_plain_body(pre));
        }
    }
    out.append("\n");
    proof {
        reveal_strlit("\n");
        assert(views(names@).take(views(names@).len() as int) =~= views(names@));
        assert(out@ =~= spec_plain_output(views(names@)));
    }
    out
}

/// The long-mode body: each row in order on its own line.
pub open spec fn spec_long_body(rows: Seq<Seq<char>>) -> Seq<char>
    decreases rows.len(),
{
    if rows.len() == 0 {
        Seq::empty()
    } else {
        spec_long_body(rows.drop_last()) + rows.last() + seq!['\n']
    }
}

/// The whole long-mode text: the rows and one final newline more.
pub open spec fn spec_long_output(rows: Seq<Seq<char>>) -> Seq<char> {
    spec_long_body(rows) + seq!['\n']
}

/// Emit the long listing from its assembled rows.
pub fn render_rows(rows: &Vec<String>) -> (out: String)
    ensures
        out@ == spec_long_output(views(rows@)),
{
    let mut out = String::new();
    let mut i: usize = 0;
    while i < rows.len()
        invariant
            i <= rows@.len(),
            out@ =~= spec_long_body(views(rows@).take(i as int)),
        decreases rows@.len() - i,
    {
        out.append(rows[i].as_str());
        out.append("\n");
        i = i + 1;
        proof {
            reveal_strlit("\n");
            let pre = views(rows@).take(i as int);
            assert(pre.drop_last() =~= views(rows@).take(i - 1));
            assert(pre.last() == rows@[i - 1]@);
            assert(out@ =~= spec_long_body(pre));
        }
    }
    out.append("\n");
    proof {
        reveal_strlit("\n");
        assert(views(rows@).take(views(rows@).len() as int) =~= views(rows@));
        assert(out@ =~= spec_long_output(views(rows@)));
    }
    out
}

/// What a plain-mode output is: the plain rendering of some sorted
/// arrangement `ordered` of the filtered entries, each name styled in
/// its category's colour (styling pinned down for names free of escape
/// characters).
pub open spec fn plain_output_shape(
    entries: Seq<Entry>,
    show_all: bool,
    ordered: Seq<Entry>,
    names: Seq<Seq<char>>,
    out: Seq<char>,
) -> bool {
    &&& ordered.to_multiset() == spec_filter(entries, show_all).to_multiset()
    &&& ordered.len() == spec_filter(entries, show_all).len()
    &&& sorted_by_name(ordered)
    &&& names.len() == ordered.len()
    &&& forall|k: int|
        0 <= k < ordered.len() && esc_free(#[trigger] ordered[k].name@) ==> styled_as(
            ordered[k].name@,
            spec_classify(ordered[k].kind),
            names[k],
        )
    &&& out == spec_plain_output(names)
}

/// What one long-format row is for entry `e`: the fixed row layout
/// over the identity-resolver's fallback discipline (some database
/// answer `ou`/`og` rendered by `spec_fallback`), the entry's calendar
/// label, its styled name and the set-wide column widths.
pub open spec fn long_row_shape(
    row: Seq<char>,
    e: Entry,
    styled: Seq<char>,
    size_w: nat,
    name_w: nat,
) -> bool {
    exists|ou: Option<Seq<char>>, og: Option<Seq<char>>|
        row == spec_long_row(
            e,
            spec_fallback(e.uid, ou),
            spec_fallback(e.gid, og),
            time_label(e.mtime),
            styled,
            size_w,
            name_w,
        )
}

/// What a long-mode output is: the row rendering of some sorted
/// arrangement `ordered` of the filtered entries, every row in the
/// fixed layout with both column widths computed over the whole set.
pub open spec fn long_output_shape(
    entries: Seq<Entry>,
    ordered: Seq<Entry>,
    names: Seq<Seq<char>>,
    rows: Seq<Seq<char>>,
    out: Seq<char>,
) -> bool {
    &&& ordered.to_multiset() == spec_filter(entries, false).to_multiset()
    &&& ordered.len() == spec_filter(entries, false).len()
    &&& sorted_by_name(ordered)
    &&& names.len() == ordered.len()
    &&& rows.len() == ordered.len()
    &&& forall|k: int|
        0 <= k < ordered.len() && esc_free(#[trigger] ordered[k].name@) ==> styled_as(
            ordered[k].name@,
            spec_classify(ordered[k].kind),
            names[k],
        )
    &&& forall|k: int|
        0 <= k < ordered.len() ==> long_row_shape(
            #[trigger] rows[k],
            ordered[k],
            names[k],
            spec_max_size_width(ordered),
            spec_max_width(names),
        )
    &&& out == spec_long_output(rows)
}

/// The one failure the assembler itself can meet: a modification
/// instant the calendar cannot represent.
#[derive(Clone, Copy, PartialEq, Eq, Structural, Debug)]
pub enum ListError {
    TimeOutOfRange,
}

impl ListError {
    /// The diagnostic line for this failure.
    pub fn message(&self) -> (m: String)
        ensures
            m@ == "ls: modification time out of calendar range"@,
    {
        String::from_str("ls: modification time out of calendar range")
    }
}

/// Assemble the whole listing of an entry set in one display mode.
///
/// Hidden entries are dropped in every mode but `All`; the remainder
/// is sorted by name; plain modes emit the styled names, long mode the
/// aligned metadata rows, and the two accepted-but-inert modes emit an
/// empty listing. The only failure is a kept entry whose modification
/// instant the calendar cannot represent.
pub fn list(entries: Vec<Entry>, mode: DisplayMode) -> (r: Result<String, ListError>)
    ensures
        !(mode is Long) ==> r is Ok,
        (mode is Long && (forall|i: int|
            0 <= i < entries@.len() && keeps(#[trigger] entries@[i], false) ==> entries@[i].mtime
                <= TIME_IN_RANGE)) ==> r is Ok,
        r is Err ==> mode is Long && exists|i: int|
            0 <= i < entries@.len() && #[trigger] entries@[i].mtime > TIME_IN_RANGE && keeps(
                entries@[i],
                false,
            ),
        (mode is Normal || mode is All) ==> exists|ordered: Seq<Entry>, names: Seq<Seq<char>>|
            #[trigger] plain_output_shape(entries@, mode is All, ordered, names, r->Ok_0@),
        (mode is Recursive || mode is HumanReadable) ==> r->Ok_0@ == seq!['\n'],
        (mode is Long && r is Ok) ==> exists|
            ordered: Seq<Entry>,
            names: Seq<Seq<char>>,
            rows: Seq<Seq<char>>,
        | long_output_shape(entries@, ordered, names, rows, r->Ok_0@),
{
    let show_all = match mode {
        DisplayMode::All => true,
        _ => false,
    };
    let kept = filter_hidden(&entries, show_all);
    let sorted = sort_by_name(kept);
    proof {
        assert(sorted@.len() == spec_filter(entries@, show_all).len());
    }
    match mode {
        DisplayMode::Normal | DisplayMode::All => {
            let styled = style_all(&sorted);
            let out = render_plain(&styled);
            proof {
                assert(forall|k: int|
                    0 <= k < styled@.len() ==> views(styled@)[k] == #[trigger] styled@[k]@);
                assert(show_all == (mode is All));
                assert(plain_output_shape(entries@, mode is All, sorted@, views(styled@), out@));
            }
            let res: Result<String, ListError> = Ok(out);
            proof {
                assert(res->Ok_0@ == out@);
                assert(plain_output_shape(entries@, mode is All, sorted@, views(styled@), res->Ok_0@));
                assert(exists|ordered: Seq<Entry>, names: Seq<Seq<char>>|
                    #[trigger] plain_output_shape(entries@, mode is All, ordered, names, res->Ok_0@));
            }
            res
        },
        DisplayMode::Long => {
            let styled = style_all(&sorted);
            let size_w = max_size_width(&sorted);
            let name_w = max_name_width(&styled);
            let mut rows: Vec<String> = Vec::new();
            let mut i: usize = 0;
            while i < sorted.len()
                invariant
                    i <= sorted@.len(),
                    rows@.len() == i,
                    styled@.len() == sorted@.len(),
                    sorted@.to_multiset() == spec_filter(entries@, false).to_multiset(),
                    mode is Long,
                    size_w as nat == spec_max_size_width(sorted@),
                    name_w as nat == spec_max_width(views(styled@)),
                    forall|k: int|
                        0 <= k < i ==> long_row_shape(
                            #[trigger] rows@[k]@,
                            sorted@[k],
                            styled@[k]@,
                            spec_max_size_width(sorted@),
                            spec_max_width(views(styled@)),
                        ),
                decreases sorted@.len() - i,
            {
                let e = &sorted[i];
                let time = match format_time(e.mtime) {
                    Some(t) => t,
                    None => {
                        proof {
                            lemma_filter_keeps(entries@, false);
                            let bad = sorted@[i as int];
                            assert(sorted@.contains(bad));
                            assert(sorted@.to_multiset().count(bad) > 0);
                            assert(spec_filter(entries@, false).contains(bad));
                            let j = choose|j: int|
                                0 <= j < spec_filter(entries@, false).len() && spec_filter(
                                    entries@,
                                    false,
                                )[j] == bad;
                            assert(keeps(bad, false));
                            assert(entries@.contains(bad));
                            let k = choose|k: int|
                                0 <= k < entries@.len() && entries@[k] == bad;
                            assert(entries@[k].mtime > TIME_IN_RANGE && keeps(entries@[k], false));
                        }
                        return Err(ListError::TimeOutOfRange);
                    },
                };
                let user = resolve_user(e.uid);
                let group = resolve_group(e.gid);
                let row = render_long_row(
                    e,
                    user.as_str(),
                    group.as_str(),
                    time.as_str(),
                    styled[i].as_str(),
                    size_w,
                    name_w,
                );
                proof {
                    let ghost ou = choose|o: Option<Seq<char>>| user@ == spec_fallback(e.uid, o);
                    let ghost og = choose|o: Option<Seq<char>>| group@ == spec_fallback(e.gid, o);
                    assert(row@ == spec_long_row(
                        sorted@[i as int],
                        spec_fallback(sorted@[i as int].uid, ou),
                        spec_fallback(sorted@[i as int].gid, og),
                        time_label(sorted@[i as int].mtime),
                        styled@[i as int]@,
                        spec_max_size_width(sorted@),
                        spec_max_width(views(styled@)),
                    ));
                    assert(long_row_shape(
                        row@,
                        sorted@[i as int],
                        styled@[i as int]@,
                        spec_max_size_width(sorted@),
                        spec_max_width(views(styled@)),
                    ));
                }
                rows.push(row);
                i = i + 1;
            }
            let out = render_rows(&rows);
            proof {
                assert(forall|k: int|
                    0 <= k < rows@.len() ==> views(rows@)[k] == #[trigger] rows@[k]@);
                assert(long_output_shape(
                    entries@,
                    sorted@,
                    views(styled@),
                    views(rows@),
                    out@,
                ));
            }
            let res: Result<String, ListError> = Ok(out);
            proof {
                assert(res->Ok_0@ == out@);
                assert(long_output_shape(
                    entries@,
                    sorted@,
                    views(styled@),
                    views(rows@),
                    res->Ok_0@,
                ));
                assert(exists|ordered: Seq<Entry>, names: Seq<Seq<char>>, rows2: Seq<Seq<char>>|
                    #[trigger] long_output_shape(entries@, ordered, names, rows2, res->Ok_0@));
            }
            res
        },
        DisplayMode::Recursive | DisplayMode::HumanReadable => {
            let out = String::from_str("\n");
            proof {
                reveal_strlit("\n");
                assert(out@ =~= seq!['\n']);
            }
            Ok(out)
        },
    }
}

/// Plain-mode completeness: an ordered entry set that holds the
/// filtered entries (as a multiset) and stands sorted holds exactly
/// the entries the hidden-entry policy admits — every listed entry
/// passed the filter and came from the input, every admitted input
/// entry is listed, each exactly as often as it was admitted — in
/// ascending name order.
pub proof fn lemma_plain_listing(entries: Seq<Entry>, show_all: bool, ordered: Seq<Entry>)
    requires
        ordered.to_multiset() == spec_filter(entries, show_all).to_multiset(),
        sorted_by_name(ordered),
    ensures
        ordered.len() == spec_filter(entries, show_all).len(),
        forall|i: int| 0 <= i < ordered.len() ==> keeps(#[trigger] ordered[i], show_all),
        forall|i: int| 0 <= i < ordered.len() ==> entries.contains(#[trigger] ordered[i]),
        forall|i: int|
            0 <= i < entries.len() && keeps(#[trigger] entries[i], show_all) ==> ordered.contains(
                entries[i],
            ),
        forall|e: Entry|
            ordered.to_multiset().count(e) == spec_filter(entries, show_all).to_multiset().count(
                e,
            ),
        forall|i: int, j: int| 0 <= i < j < ordered.len() ==> lex_le(ordered[i].name@, ordered[j].name@),
{
    lemma_filter_keeps(entries, show_all);
    let kept = spec_filter(entries, show_all);
    assert(ordered.to_multiset().len() == kept.to_multiset().len());
    assert forall|i: int| 0 <= i < ordered.len() implies keeps(#[trigger] ordered[i], show_all)
        && entries.contains(ordered[i]) by {
        assert(ordered.contains(ordered[i]));
        assert(ordered.to_multiset().count(ordered[i]) > 0);
        assert(kept.contains(ordered[i]));
        let j = choose|j: int| 0 <= j < kept.len() && kept[j] == ordered[i];
        assert(keeps(kept[j], show_all));
    }
    assert forall|i: int|
        0 <= i < entries.len() && keeps(#[trigger] entries[i], show_all) implies ordered.contains(
        entries[i],
    ) by {
        assert(kept.contains(entries[i]));
        assert(kept.to_multiset().count(entries[i]) > 0);
        assert(ordered.to_multiset().count(entries[i]) > 0);
    }
}

/// The display names of an entry set, in order.
pub open spec fn names_of(s: Seq<Entry>) -> Seq<Seq<char>> {
    s.map_values(|e: Entry| e.name@)
}

/// Idempotence of the visible order: two sorted arrangements of the
/// same entries print the same names in the same order, whatever order
/// the directory handed the entries over in. Listing an unmodified
/// directory twice therefore shows the same name sequence both times.
pub proof fn lemma_sorted_names_unique(a: Seq<Entry>, b: Seq<Entry>)
    requires
        a.to_multiset() == b.to_multiset(),
        sorted_by_name(a),
        sorted_by_name(b),
    ensures
        names_of(a) == names_of(b),
    decreases a.len(),
{
    assert(a.to_multiset().len() == b.to_multiset().len());
    if a.len() == 0 {
        assert(names_of(a) =~= names_of(b));
    } else {
        let x = a[0];
        assert(a.contains(x));
        assert(a.to_multiset().count(x) > 0);
        assert(b.contains(x));
        let k = choose|k: int| 0 <= k < b.len() && b[k] == x;
        assert(lex_le(b[0].name@, b[k].name@)) by {
            if k > 0 {
            } else {
                lemma_lex_refl(b[0].name@);
            }
        }
        assert(b.to_multiset().count(b[0]) > 0);
        assert(a.contains(b[0]));
        let k2 = choose|k2: int| 0 <= k2 < a.len() && a[k2] == b[0];
        assert(lex_le(a[0].name@, a[k2].name@)) by {
            if k2 > 0 {
            } else {
                lemma_lex_refl(a[0].name@);
            }
        }
        lemma_lex_antisym(a[0].name@, b[0].name@);
        let a1 = a.drop_first();
        assert(a.remove(0) =~= a1);
        assert(a1.to_multiset() =~= a.to_multiset().remove(x));
        let b1 = b.remove(k);
        assert(b1.to_multiset() =~= b.to_multiset().remove(x));
        assert(a1.to_multiset() == b1.to_multiset());
        assert forall|i: int, j: int| 0 <= i < j < b1.len() implies lex_le(
            b1[i].name@,
            b1[j].name@,
        ) by {
            let bi = if i < k {
                i
            } else {
                i + 1
            };
            let bj = if j < k {
                j
            } else {
                j + 1
            };
            assert(b1[i] == b[bi] && b1[j] == b[bj]);
        }
        lemma_sorted_names_unique(a1, b1);
        assert forall|t: int| 0 <= t <= k implies b[t].name@ == x.name@ by {
            if 0 < t < k {
                lemma_lex_trans(b[t].name@, b[k].name@, b[0].name@);
                lemma_lex_antisym(b[0].name@, b[t].name@);
            }
        }
        assert(names_of(b1) =~= names_of(b).drop_first()) by {
            assert forall|t: int| 0 <= t < b1.len() implies names_of(b1)[t] == names_of(
                b,
            ).drop_first()[t] by {
                if t < k {
                    assert(b1[t] == b[t]);
                    assert(b[t].name@ == x.name@);
                    assert(b[t + 1].name@ == x.name@);
                } else {
                    assert(b1[t] == b[t + 1]);
                }
            }
        }
        assert(names_of(a) =~= seq![x.name@] + names_of(a1));
        assert(names_of(b) =~= seq![x.name@] + names_of(b).drop_first());
        assert(names_of(a) =~= names_of(b));
    }
}

/// Idempotence of the plain listing: two plain-mode outputs for the
/// same entries under the same hidden-entry policy, both styled
/// plainly (as when the terminal takes no colour), are byte-identical,
/// whatever order the directory handed the entries over in each time.
pub proof fn lemma_plain_idempotent(
    entries: Seq<Entry>,
    show_all: bool,
    ordered1: Seq<Entry>,
    names1: Seq<Seq<char>>,
    out1: Seq<char>,
    ordered2: Seq<Entry>,
    names2: Seq<Seq<char>>,
    out2: Seq<char>,
)
    requires
        plain_output_shape(entries, show_all, ordered1, names1, out1),
        plain_output_shape(entries, show_all, ordered2, names2, out2),
        names1 == names_of(ordered1),
        names2 == names_of(ordered2),
    ensures
        out1 == out2,
{
    lemma_sorted_names_unique(ordered1, ordered2);
}

/// Every size in the set renders at most as wide as the computed
/// maximum.
pub proof fn lemma_max_size_width_bounds(s: Seq<Entry>, i: int)
    requires
        0 <= i < s.len(),
    ensures
        dec_width(s[i].size as nat) <= spec_max_size_width(s),
    decreases s.len(),
{
    if i < s.len() - 1 {
        lemma_max_size_width_bounds(s.drop_last(), i);
        assert(s.drop_last()[i] == s[i]);
    }
}

/// Every string in the set is at most as long as the computed maximum.
pub proof fn lemma_max_width_bounds(s: Seq<Seq<char>>, i: int)
    requires
        0 <= i < s.len(),
    ensures
        s[i].len() <= spec_max_width(s),
    decreases s.len(),
{
    if i < s.len() - 1 {
        lemma_max_width_bounds(s.drop_last(), i);
        assert(s.drop_last()[i] == s[i]);
    }
}

/// Long-mode alignment: with the column widths computed over the whole
/// set, every row's size field prints exactly the maximum size width
/// and every row's name field exactly the maximum styled-name width.
pub proof fn lemma_long_alignment(s: Seq<Entry>, names: Seq<Seq<char>>, i: int, j: int)
    requires
        0 <= i < s.len(),
        0 <= j < names.len(),
    ensures
        spec_pad_left(spec_decimal(s[i].size as nat), spec_max_size_width(s)).len()
            == spec_max_size_width(s),
        spec_pad_right(names[j], spec_max_width(names)).len() == spec_max_width(names),
{
    lemma_max_size_width_bounds(s, i);
    lemma_max_width_bounds(names, j);
    crate::numfmt::lemma_pad_widths(spec_decimal(s[i].size as nat), spec_max_size_width(s));
    crate::numfmt::lemma_pad_widths(names[j], spec_max_width(names));
}

/// Style every entry's name in the colour of its category, in order.
fn style_all(sorted: &Vec<Entry>) -> (styled: Vec<String>)
    ensures
        styled@.len() == sorted@.len(),
        forall|k: int|
            0 <= k < sorted@.len() && esc_free(#[trigger] sorted@[k].name@) ==> styled_as(
                sorted@[k].name@,
                spec_classify(sorted@[k].kind),
                styled@[k]@,
            ),
{
    let mut styled: Vec<String> = Vec::new();
    let mut i: usize = 0;
    while i < sorted.len()
        invariant
            i <= sorted@.len(),
            styled@.len() == i,
            forall|k: int|
                0 <= k < i && esc_free(#[trigger] sorted@[k].name@) ==> styled_as(
                    sorted@[k].name@,
                    spec_classify(sorted@[k].kind),
                    styled@[k]@,
                ),
        decreases sorted@.len() - i,
    {
        let cat = classify(sorted[i].kind);
        let s = styled_name(sorted[i].name.as_str(), cat);
        styled.push(s);
        i = i + 1;
    }
    styled
}

} // verus!
