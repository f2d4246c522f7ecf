//! A tree of text lines and its layout for a terminal of a given width.

use vstd::prelude::*;
use vstd::string::{StrSliceExecFns, StringExecFns};
use unicode_width::{UnicodeWidthChar, UnicodeWidthStr};

verus! {

/// The number of columns that a string takes on a terminal: what
/// `unicode_width::UnicodeWidthStr::width` computes for it.
pub uninterp spec fn str_width(s: Seq<char>) -> nat;

/// The number of columns that a character takes on a terminal, if it is
/// no control character: what `unicode_width::UnicodeWidthChar::width`
/// computes for it.
pub uninterp spec fn char_width(c: char) -> Option<nat>;

/// A string in a colour of the 256-colour palette: the escape sequence
/// that selects the colour as foreground, the string, and the escape
/// sequence that resets the terminal.
pub open spec fn painted(colour: u8, s: Seq<char>) -> Seq<char> {
    "\x1b[38;5;"@ + crate::text::decimal_text(colour as nat) + "m"@ + s + "\x1b[0m"@
}

/// The number of columns that `s` takes, by
/// `unicode_width::UnicodeWidthStr::width`.
#[verifier::external_body]
pub(crate) fn width(s: &str) -> (w: usize)
    ensures
        w == str_width(s@),
{
    UnicodeWidthStr::width(s)
}

/// The number of columns that `c` takes, by
/// `unicode_width::UnicodeWidthChar::width`.
#[verifier::external_body]
pub(crate) fn width_of_char(c: char) -> (w: Option<usize>)
    ensures
        match w {
            Some(n) => char_width(c) == Some(n as nat),
            None => char_width(c) is None,
        },
{
    UnicodeWidthChar::width(c)
}

/// `s` in the given colour of the 256-colour palette, by
/// `ansi_term::Colour::Fixed` and `ansi_term::Colour::paint`, whose
/// `Display` writes the foreground code `38;5;` with the number of the
/// colour between `ESC [` and `m`, the string, and the reset `ESC [ 0 m`.
#[verifier::external_body]
pub(crate) fn paint(colour: u8, s: &str) -> (r: String)
    ensures
        r@ == painted(colour, s@),
{
    format!("{}", ansi_term::Colour::Fixed(colour).paint(s))
}

/// The colour of the lines that connect the entries.
pub const GREY: u8 = 244;

/// A list of entries, each with entries below it.
pub struct Tree(Vec<Entry>);

/// One line of a tree and the entries below it.
pub struct Entry {
    pub data: String,
    pub children: Tree,
}

impl View for Tree {
    type V = Seq<Entry>;

    closed spec fn view(&self) -> Seq<Entry> {
        self.0@
    }
}

impl Tree {
    /// The tree without entries.
    pub fn new() -> (t: Tree)
        ensures
            t@ == Seq::<Entry>::empty(),
    {
        Tree(Vec::new())
    }

    /// Adds an entry with nothing below it.
    pub fn leaf(&mut self, data: String) -> (r: &mut Self)
        ensures
            r@.len() == old(self)@.len() + 1,
            r@.drop_last() == old(self)@,
            r@.last().data == data,
            r@.last().children@ == Seq::<Entry>::empty(),
            *final(self) == *final(r),
    {
        self.0.push(Entry { data, children: Tree::new() });
        self
    }

    /// Adds an entry with `children` below it, unless there are no children:
    /// an entry that would stand for nothing is left out.
    pub fn node(&mut self, data: String, children: Tree) -> (r: &mut Self)
        ensures
            children@.len() == 0 ==> r@ == old(self)@,
            children@.len() > 0 ==> r@.len() == old(self)@.len() + 1 && r@.drop_last() == old(
                self,
            )@ && r@.last().data == data && r@.last().children == children,
            *final(self) == *final(r),
    {
        if children.0.len() > 0 {
            self.0.push(Entry { data, children });
        }
        self
    }

    /// Number of entries at the top of the tree.
    pub fn len(&self) -> (n: usize)
        ensures
            n == self@.len(),
    {
        self.0.len()
    }
}

/// The width of a character, none counting as no width.
pub open spec fn width_or_zero(c: char) -> nat {
    match char_width(c) {
        Some(w) => w,
        None => 0,
    }
}

/// `out` followed by the characters of `data` from place `i` on, as long as
/// the text stays narrower than `mw` columns.
pub open spec fn take_fitting(data: Seq<char>, out: Seq<char>, i: int, mw: nat) -> Seq<char>
    decreases data.len() - i,
{
    if 0 <= i < data.len() && str_width(out) + width_or_zero(data[i]) < mw {
        take_fitting(data, out.push(data[i]), i + 1, mw)
    } else {
        out
    }
}

/// The mark that stands for what was cut off.
pub open spec fn ellipsis() -> char {
    '\u{2026}'
}

/// `out` followed by as many marks as it takes to reach `mw` columns, at
/// most `budget` of them.
pub open spec fn pad(out: Seq<char>, mw: nat, budget: nat) -> Seq<char>
    decreases budget,
{
    if budget == 0 || str_width(out) >= mw {
        out
    } else {
        pad(out.push(ellipsis()), mw, (budget - 1) as nat)
    }
}

/// The text of an entry, cut to `mw` columns if it is wider: as much of its
/// start as stays narrower, filled up with marks.
pub open spec fn fitted(data: Seq<char>, mw: Option<usize>) -> Seq<char> {
    match mw {
        None => data,
        Some(mw) => if str_width(Seq::empty()) + str_width(data) <= mw {
            data
        } else {
            pad(take_fitting(data, Seq::empty(), 0, mw as nat), mw as nat, mw as nat)
        },
    }
}

/// The text of an entry, cut to `mw` columns if it is wider.
pub fn fit(data: &str, mw: Option<usize>) -> (r: String)
    ensures
        r@ == fitted(data@, mw),
{
    match mw {
        None => String::from_str(data),
        Some(mw) => {
            let mut out = String::new();
            assert(out@ =~= Seq::<char>::empty());
            let w0 = width(out.as_str());
            let w1 = width(data);
            if w1 <= mw && w0 <= mw - w1 {
                return String::from_str(data);
            }
            let n = data.unicode_len();
            let mut i: usize = 0;
            loop
                invariant
                    i <= n,
                    n == data@.len(),
                    take_fitting(data@, Seq::empty(), 0, mw as nat) == take_fitting(
                        data@,
                        out@,
                        i as int,
                        mw as nat,
                    ),
                ensures
                    take_fitting(data@, Seq::empty(), 0, mw as nat) == out@,
                decreases n - i,
            {
                if i >= n {
                    break ;
                }
                let c = data.get_char(i);
                let cw = match width_of_char(c) {
                    Some(w) => w,
                    None => 0,
                };
                let ow = width(out.as_str());
                if cw < mw && ow < mw - cw {
                    let ghost before = out@;
                    out.append(data.substring_char(i, i + 1));
                    proof {
                        assert(data@.subrange(i as int, i + 1) =~= seq![data@[i as int]]);
                        assert(out@ =~= before.push(data@[i as int]));
                    }
                    i = i + 1;
                } else {
                    break ;
                }
            }
            let mut budget: usize = mw;
            while budget > 0 && width(out.as_str()) < mw
                invariant
                    pad(take_fitting(data@, Seq::empty(), 0, mw as nat), mw as nat, mw as nat)
                        == pad(out@, mw as nat, budget as nat),
                decreases budget,
            {
                let ghost before = out@;
                out.append("\u{2026}");
                proof {
                    reveal_strlit("\u{2026}");
                    assert("\u{2026}"@ =~= seq![ellipsis()]);
                    assert(out@ =~= before.push(ellipsis()));
                }
                budget = budget - 1;
            }
            out
        },
    }
}

/// The lines that lead past the ancestors of an entry: a bar for each, or
/// blank if it was the last of its siblings.
pub open spec fn passing_text(lasts: Seq<bool>) -> Seq<char>
    decreases lasts.len(),
{
    if lasts.len() == 0 {
        Seq::empty()
    } else {
        passing_text(lasts.drop_last()) + (if lasts.last() {
            "  "@
        } else {
            "\u{2502} "@
        })
    }
}

/// The lines that lead to an entry. `lasts` says of each ancestor, outermost
/// first, and then of the entry itself, whether it is the last of its
/// siblings: the lines lead past the ancestors, then to the entry with a
/// branch, or with a corner if it is the last.
pub open spec fn lead_text(lasts: Seq<bool>) -> Seq<char> {
    if lasts.len() == 0 {
        Seq::empty()
    } else {
        passing_text(lasts.drop_last()) + (if lasts.last() {
            "\u{2514} "@
        } else {
            "\u{251c} "@
        })
    }
}

/// The lines that lead to an entry, as text.
pub fn render_pfx(lasts: &Vec<bool>) -> (r: String)
    ensures
        r@ == lead_text(lasts@),
{
    let mut out = String::new();
    let n = lasts.len();
    if n == 0 {
        assert(out@ =~= Seq::<char>::empty());
        return out;
    }
    let mut i: usize = 0;
    assert(lasts@.take(0) =~= Seq::<bool>::empty());
    assert(out@ =~= passing_text(lasts@.take(0)));
    while i < n - 1
        invariant
            n == lasts.len(),
            n > 0,
            i <= n - 1,
            out@ == passing_text(lasts@.take(i as int)),
        decreases n - i,
    {
        assert(lasts@.take(i + 1).drop_last() =~= lasts@.take(i as int));
        if lasts[i] {
            out.append("  ");
        } else {
            out.append("\u{2502} ");
        }
        i = i + 1;
    }
    assert(lasts@.take(n - 1) =~= lasts@.drop_last());
    if lasts[n - 1] {
        out.append("\u{2514} ");
    } else {
        out.append("\u{251c} ");
    }
    out
}

/// What stands between an entry and its only child when the two share a
/// line.
pub open spec fn separator(color: bool) -> Seq<char> {
    if color {
        painted(GREY, " / "@)
    } else {
        " / "@
    }
}

/// The sum of two widths, or the greatest number if the sum is greater.
pub open spec fn capped_sum(a: nat, b: nat) -> nat {
    if a + b > usize::MAX {
        usize::MAX as nat
    } else {
        a + b
    }
}

/// What is left of `mw` columns after `used` of them, nothing if `used` is
/// more.
pub open spec fn left_of(mw: Option<usize>, used: nat) -> Option<usize> {
    match mw {
        None => None,
        Some(m) => Some(
            if used >= m {
                0usize
            } else {
                (m - used) as usize
            },
        ),
    }
}

/// The text that a chain of only children adds to the line of their
/// ancestor: for each the separator and its text, as long as every entry of
/// the chain has one child or none and the text fits into `mw` columns.
/// Otherwise the children get lines of their own, and there is no such text.
pub open spec fn collapsed(children: Seq<Entry>, mw: Option<usize>, color: bool) -> Option<
    Seq<char>,
>
    decreases children,
{
    if children.len() == 1 {
        let e = children[0];
        let nw = capped_sum(str_width(e.data@), str_width(separator(color)));
        if mw is None || nw <= mw->0 {
            if e.children@.len() == 0 {
                Some(separator(color) + e.data@)
            } else {
                match collapsed(e.children@, left_of(mw, nw), color) {
                    Some(rest) => Some(separator(color) + e.data@ + rest),
                    None => None,
                }
            }
        } else {
            None
        }
    } else {
        None
    }
}

/// The text that a chain of only children adds to the line of their
/// ancestor, if they can share it.
pub fn collapse(children: &Tree, mw: Option<usize>, color: bool) -> (r: Option<String>)
    ensures
        match r {
            Some(text) => collapsed(children@, mw, color) == Some(text@),
            None => collapsed(children@, mw, color) is None,
        },
    decreases children,
{
    if children.0.len() != 1 {
        return None;
    }
    let e = &children.0[0];
    let sep = if color {
        paint(GREY, " / ")
    } else {
        String::from_str(" / ")
    };
    let dw = width(e.data.as_str());
    let sw = width(sep.as_str());
    let nw = if dw > usize::MAX - sw {
        usize::MAX
    } else {
        dw + sw
    };
    let fits = match mw {
        None => true,
        Some(m) => nw <= m,
    };
    if !fits {
        return None;
    }
    let mut out = sep;
    out.append(e.data.as_str());
    if e.children.0.len() == 0 {
        Some(out)
    } else {
        let room = match mw {
            None => None,
            Some(m) => Some(
                if nw >= m {
                    0
                } else {
                    m - nw
                },
            ),
        };
        match collapse(&e.children, room, color) {
            Some(rest) => {
                out.append(rest.as_str());
                Some(out)
            },
            None => None,
        }
    }
}

/// The lines that lead to an entry as they are shown: in grey, if colours
/// are in use.
pub open spec fn shown_lead(lasts: Seq<bool>, color: bool) -> Seq<char> {
    if color {
        painted(GREY, lead_text(lasts))
    } else {
        lead_text(lasts)
    }
}

/// The lines of an entry and of all that stands below it. The entry takes
/// one line: the lines that lead to it, its text cut to `mw` columns, and,
/// if its descendants can share the line, their text. If they cannot, each
/// child follows with its own lines.
pub open spec fn entry_text(e: Entry, mw: Option<usize>, color: bool, lasts: Seq<bool>) -> Seq<
    char,
>
    decreases e, 0nat,
{
    let label = fitted(e.data@, mw);
    match collapsed(e.children@, left_of(mw, str_width(label)), color) {
        Some(rest) => shown_lead(lasts, color) + label + rest + seq!['\n'],
        None => shown_lead(lasts, color) + label + seq!['\n'] + entries_text(
            e.children@,
            e.children@.len() as nat,
            mw,
            color,
            lasts,
            true,
        ),
    }
}

/// The lines of the first `n` entries of `es`. If the entries are nested
/// below an entry to which `lasts` leads, each is led to by `lasts` and by
/// whether it is the last of `es`; at the top of a tree nothing leads to
/// them.
pub open spec fn entries_text(
    es: Seq<Entry>,
    n: nat,
    mw: Option<usize>,
    color: bool,
    lasts: Seq<bool>,
    nested: bool,
) -> Seq<char>
    decreases es, n,
{
    if n == 0 || n > es.len() {
        Seq::empty()
    } else {
        entries_text(es, (n - 1) as nat, mw, color, lasts, nested) + entry_text(
            es[n - 1],
            mw,
            color,
            if nested {
                lasts.push(n == es.len())
            } else {
                lasts
            },
        )
    }
}

/// Appends the lines of an entry and of all that stands below it to `out`.
pub fn render_entry(
    entry: &Entry,
    mw: Option<usize>,
    color: bool,
    lasts: &Vec<bool>,
    out: &mut String,
)
    ensures
        final(out)@ == old(out)@ + entry_text(*entry, mw, color, lasts@),
    decreases entry, 0nat,
{
    let lead = render_pfx(lasts);
    if color {
        let shown = paint(GREY, lead.as_str());
        out.append(shown.as_str());
    } else {
        out.append(lead.as_str());
    }
    let label = fit(entry.data.as_str(), mw);
    let lw = width(label.as_str());
    let room = match mw {
        None => None,
        Some(m) => Some(
            if lw >= m {
                0
            } else {
                m - lw
            },
        ),
    };
    out.append(label.as_str());
    proof {
        reveal_strlit("\n");
        assert("\n"@ =~= seq!['\n']);
    }
    match collapse(&entry.children, room, color) {
        Some(rest) => {
            out.append(rest.as_str());
            out.append("\n");
            assert(out@ =~= old(out)@ + entry_text(*entry, mw, color, lasts@));
        },
        None => {
            out.append("\n");
            let ghost start = out@;
            let n = entry.children.0.len();
            let mut i: usize = 0;
            assert(out@ =~= start + entries_text(entry.children@, 0, mw, color, lasts@, true));
            while i < n
                invariant
                    i <= n,
                    n == entry.children@.len(),
                    out@ == start + entries_text(
                        entry.children@,
                        i as nat,
                        mw,
                        color,
                        lasts@,
                        true,
                    ),
                decreases entry, 0nat, n - i,
            {
                let mut below = lasts.clone();
                below.push(i + 1 == n);
                render_entry(&entry.children.0[i], mw, color, &below, out);
                i = i + 1;
                assert(out@ =~= start + entries_text(
                    entry.children@,
                    i as nat,
                    mw,
                    color,
                    lasts@,
                    true,
                ));
            }
            assert(out@ =~= old(out)@ + entry_text(*entry, mw, color, lasts@));
        },
    }
}

impl Tree {
    /// The lines of the tree, for a terminal of `mw` columns if a width is
    /// given, with the connecting lines in grey if `color` is set.
    pub fn render(&self, mw: Option<usize>, color: bool) -> (r: String)
        ensures
            r@ == entries_text(self@, self@.len(), mw, color, Seq::empty(), false),
    {
        let mut out = String::new();
        let lasts: Vec<bool> = Vec::new();
        let n = self.0.len();
        let mut i: usize = 0;
        assert(out@ =~= entries_text(self@, 0, mw, color, Seq::empty(), false));
        while i < n
            invariant
                i <= n,
                n == self@.len(),
                lasts@ == Seq::<bool>::empty(),
                out@ == entries_text(self@, i as nat, mw, color, Seq::empty(), false),
            decreases n - i,
        {
            render_entry(&self.0[i], mw, color, &lasts, &mut out);
            i = i + 1;
        }
        out
    }
}

} // verus!
