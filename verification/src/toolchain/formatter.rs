//! The NOVA source formatter: collapses runs of spaces, trims every line,
//! writes `->` as `→`, and indents each line by the number of open braces.

use vstd::prelude::*;
use crate::strings::{
    is_ws, lemma_split_on_len, line_bounds, lines_of, split_on, strip_cr, trim, trim_bounds, trim_end, trim_start,
};
use crate::text::{decimal, push_char, push_decimal, push_str};

verus! {

/// Formatting options.
#[derive(Debug, Clone)]
pub struct FormatOptions {
    /// Spaces per indentation level.
    pub tab_width: usize,
    /// Indent with tabs instead of spaces.
    pub use_tabs: bool,
    /// Maximum line length before wrapping.
    pub max_width: usize,
}

impl Default for FormatOptions {
    fn default() -> (r: Self)
        ensures
            r.tab_width == 4,
            !r.use_tabs,
            r.max_width == 100,
    {
        FormatOptions { tab_width: 4, use_tabs: false, max_width: 100 }
    }
}

/// The result of formatting.
#[derive(Debug)]
pub struct FormatResult {
    pub formatted: String,
    pub changed: bool,
}

/// The formatter and its state.
#[derive(Debug)]
pub struct Formatter {
    options: FormatOptions,
    indent_level: usize,
    output: String,
}

/// Runs of spaces collapsed to one, and leading spaces dropped: the text so
/// far, and the last character kept (a space at the start).
pub open spec fn collapse_state(s: Seq<char>) -> (Seq<char>, char)
    decreases s.len(),
{
    if s.len() == 0 {
        (Seq::empty(), ' ')
    } else {
        let (r, prev) = collapse_state(s.drop_last());
        let c = s.last();
        if c == ' ' && prev == ' ' { (r, prev) } else { (r.push(c), c) }
    }
}

/// `s` with runs of spaces collapsed and leading spaces dropped.
pub open spec fn collapse_spaces(s: Seq<char>) -> Seq<char> {
    collapse_state(s).0
}

/// `s` with each `->`, from left to right, written `→`.
pub open spec fn replace_arrows(s: Seq<char>) -> Seq<char>
    decreases s.len(),
{
    if s.len() == 0 {
        Seq::empty()
    } else if s.len() >= 2 && s[0] == '-' && s[1] == '>' {
        seq!['→'] + replace_arrows(s.subrange(2, s.len() as int))
    } else {
        seq![s[0]] + replace_arrows(s.drop_first())
    }
}

/// The number of occurrences of `c` in `s`.
pub open spec fn count_char(s: Seq<char>, c: char) -> nat
    decreases s.len(),
{
    if s.len() == 0 { 0 } else { count_char(s.drop_last(), c) + if s.last() == c { 1nat } else { 0nat } }
}

/// The indentation for a level: one tab per level, or `tab_width` spaces per level.
pub open spec fn indent_text(level: nat, use_tabs: bool, tab_width: nat) -> Seq<char> {
    if use_tabs { Seq::new(level, |i: int| '\t') } else { Seq::new(level * tab_width, |i: int| ' ') }
}

/// The level after a (trimmed) line: a lone `}` closes a level, a final `{`
/// opens one, and more `{` than `}` open the difference.
pub open spec fn next_level(level: nat, t: Seq<char>) -> nat {
    let l1: nat = if t == seq!['}'] && level > 0 { (level - 1) as nat } else { level };
    let l2: nat = if t.len() > 0 && t.last() == '{' { l1 + 1 } else { l1 };
    let o = count_char(t, '{');
    let c = count_char(t, '}');
    if o > c { (l2 + o - c) as nat } else { l2 }
}

/// The output and level after formatting the lines in turn.
pub open spec fn format_state(lines: Seq<Seq<char>>, use_tabs: bool, tab_width: nat) -> (Seq<char>, nat)
    decreases lines.len(),
{
    if lines.len() == 0 {
        (Seq::empty(), 0)
    } else {
        let (res, level) = format_state(lines.drop_last(), use_tabs, tab_width);
        let t = trim(lines.last());
        if t.len() == 0 && res.len() == 0 {
            (res, level)
        } else {
            let f = replace_arrows(t);
            let body = if f.len() > 0 { res + indent_text(level, use_tabs, tab_width) + f } else { res };
            (body.push('\n'), next_level(level, t))
        }
    }
}

/// The formatted source: each line trimmed, arrows rewritten and indented,
/// leading blank lines dropped, and no final newline.
pub open spec fn format_text(source: Seq<char>, use_tabs: bool, tab_width: nat) -> Seq<char> {
    let res = format_state(lines_of(collapse_spaces(source)), use_tabs, tab_width).0;
    if res.len() > 0 && res.last() == '\n' { res.drop_last() } else { res }
}

/// The level reached after formatting the source.
pub open spec fn format_level(source: Seq<char>, use_tabs: bool, tab_width: nat) -> nat {
    format_state(lines_of(collapse_spaces(source)), use_tabs, tab_width).1
}

/// No `->` is left in `s`.
pub open spec fn no_arrow(s: Seq<char>) -> bool {
    forall|i: int| 0 <= i < s.len() - 1 ==> !(#[trigger] s[i] == '-' && s[i + 1] == '>')
}

/// Rewriting arrows leaves none, and keeps the first character unless it
/// starts an arrow.
proof fn lemma_replace_arrows_clean(s: Seq<char>)
    ensures
        no_arrow(replace_arrows(s)),
        replace_arrows(s).len() > 0 <==> s.len() > 0,
        s.len() > 0 ==> (replace_arrows(s)[0] == '→' || replace_arrows(s)[0] == s[0]),
        s.len() > 0 && replace_arrows(s)[0] == '-' ==> !(s.len() >= 2 && s[1] == '>'),
    decreases s.len(),
{
    if s.len() >= 2 && s[0] == '-' && s[1] == '>' {
        let rest = s.subrange(2, s.len() as int);
        lemma_replace_arrows_clean(rest);
        lemma_join_clean(seq!['→'], replace_arrows(rest));
    } else if s.len() > 0 {
        let rest = s.drop_first();
        lemma_replace_arrows_clean(rest);
        if rest.len() > 0 {
            assert(rest[0] == s[1]);
        }
        lemma_join_clean(seq![s[0]], replace_arrows(rest));
    }
}

/// Two texts without an arrow joined make none, unless the first ends with
/// `-` and the second starts with `>`.
proof fn lemma_join_clean(a: Seq<char>, b: Seq<char>)
    requires
        no_arrow(a),
        no_arrow(b),
        a.len() > 0 && a.last() == '-' ==> b.len() == 0 || b[0] != '>',
    ensures
        no_arrow(a + b),
{
    let c = a + b;
    assert forall|i: int| 0 <= i < c.len() - 1 implies !(#[trigger] c[i] == '-' && c[i + 1] == '>') by {
        if i + 1 < a.len() {
            assert(c[i] == a[i] && c[i + 1] == a[i + 1]);
        } else if i >= a.len() {
            assert(c[i] == b[i - a.len()] && c[i + 1] == b[i + 1 - a.len()]);
        } else {
            assert(c[i] == a.last());
            assert(c[i + 1] == b[0]);
        }
    }
}

/// The output of formatting lines has no arrow and ends with a newline, if
/// it is not empty.
proof fn lemma_format_state_clean(lines: Seq<Seq<char>>, use_tabs: bool, tab_width: nat)
    ensures
        no_arrow(format_state(lines, use_tabs, tab_width).0),
        format_state(lines, use_tabs, tab_width).0.len() > 0 ==> format_state(lines, use_tabs, tab_width).0.last() == '\n',
    decreases lines.len(),
{
    if lines.len() > 0 {
        lemma_format_state_clean(lines.drop_last(), use_tabs, tab_width);
        let (res, level) = format_state(lines.drop_last(), use_tabs, tab_width);
        let t = trim(lines.last());
        let f = replace_arrows(t);
        lemma_replace_arrows_clean(t);
        let ind = indent_text(level, use_tabs, tab_width);
        assert(no_arrow(ind));
        assert(ind.len() > 0 ==> ind.last() != '-');
        lemma_join_clean(res, ind);
        if res.len() > 0 {
            assert((res + ind).last() == if ind.len() > 0 { ind.last() } else { res.last() });
        }
        lemma_join_clean(res + ind, f);
        let body = if f.len() > 0 { res + ind + f } else { res };
        lemma_join_clean(body, seq!['\n']);
    }
}

/// Formatting leaves no `->`: every arrow is written `→`.
pub proof fn lemma_format_leaves_no_arrow(source: Seq<char>, use_tabs: bool, tab_width: nat)
    ensures
        no_arrow(format_text(source, use_tabs, tab_width)),
{
    lemma_format_state_clean(lines_of(collapse_spaces(source)), use_tabs, tab_width);
    let res = format_state(lines_of(collapse_spaces(source)), use_tabs, tab_width).0;
    if res.len() > 0 && res.last() == '\n' {
        let d = res.drop_last();
        assert forall|i: int| 0 <= i < d.len() - 1 implies !(#[trigger] d[i] == '-' && d[i + 1] == '>') by {
            assert(d[i] == res[i] && d[i + 1] == res[i + 1]);
        }
    }
}

/// `s` has `->` at `p`.
pub open spec fn arrow_at(s: Seq<char>, p: int) -> bool {
    0 <= p < s.len() - 1 && s[p] == '-' && s[p + 1] == '>'
}

/// An arrow survives collapsing spaces.
proof fn lemma_collapse_keeps_arrow(s: Seq<char>, p: int) -> (q: int)
    requires
        arrow_at(s, p),
    ensures
        arrow_at(collapse_spaces(s), q),
    decreases s.len(),
{
    let t = s.drop_last();
    let (r0, prev) = collapse_state(t);
    if p + 1 < s.len() - 1 {
        let q0 = lemma_collapse_keeps_arrow(t, p);
        assert(collapse_state(s).0 == r0 || collapse_state(s).0 == r0.push(s.last()));
        q0
    } else {
        assert(t.last() == '-');
        assert(collapse_state(t.drop_last()).0.push(t.last()) == r0);
        assert(collapse_state(s).0 == r0.push('>'));
        (r0.len() - 1) as int
    }
}

/// An arrow in a text lies in one of its pieces between separators.
proof fn lemma_split_keeps_arrow(x: Seq<char>, sep: char, p: int) -> (jq: (int, int))
    requires
        arrow_at(x, p),
        sep != '-',
        sep != '>',
    ensures
        0 <= jq.0 < split_on(x, sep).len(),
        arrow_at(split_on(x, sep)[jq.0], jq.1),
        jq.0 < split_on(x, sep).len() - 1 || x.last() != sep,
    decreases x.len(),
{
    let t = x.drop_last();
    lemma_split_on_len(t, sep);
    let pt = split_on(t, sep);
    if p + 1 < x.len() - 1 {
        let (j, q) = lemma_split_keeps_arrow(t, sep, p);
        if x.last() == sep {
            (j, q)
        } else {
            let px = split_on(x, sep);
            if j == pt.len() - 1 {
                assert(px[j] == pt.last().push(x.last()));
            } else {
                assert(px[j] == pt[j]);
            }
            (j, q)
        }
    } else {
        assert(t.last() == '-');
        let tt = t.drop_last();
        lemma_split_on_len(tt, sep);
        let ptt = split_on(tt, sep);
        assert(pt == ptt.update(ptt.len() - 1, ptt.last().push(t.last())));
        assert(pt.last().last() == '-');
        let px = split_on(x, sep);
        assert(px[pt.len() - 1] == pt.last().push('>'));
        ((pt.len() - 1) as int, (pt.last().len() - 1) as int)
    }
}

/// An arrow survives trimming.
proof fn lemma_trim_keeps_arrow(s: Seq<char>, p: int) -> (q: int)
    requires
        arrow_at(s, p),
    ensures
        arrow_at(trim(s), q),
{
    let q1 = lemma_trim_start_keeps_arrow(s, p);
    lemma_trim_end_keeps_arrow(trim_start(s), q1);
    q1
}

/// An arrow survives trimming the start.
proof fn lemma_trim_start_keeps_arrow(s: Seq<char>, p: int) -> (q: int)
    requires
        arrow_at(s, p),
    ensures
        arrow_at(trim_start(s), q),
    decreases s.len(),
{
    if s.len() > 0 && is_ws(s[0]) {
        assert(p >= 1);
        lemma_trim_start_keeps_arrow(s.drop_first(), p - 1)
    } else {
        p
    }
}

/// An arrow survives trimming the end, at the same place.
proof fn lemma_trim_end_keeps_arrow(s: Seq<char>, p: int)
    requires
        arrow_at(s, p),
    ensures
        arrow_at(trim_end(s), p),
    decreases s.len(),
{
    if s.len() > 0 && is_ws(s.last()) {
        assert(p + 1 < s.len() - 1);
        lemma_trim_end_keeps_arrow(s.drop_last(), p);
    }
}

/// Rewriting a text with an arrow writes a `→`.
proof fn lemma_replace_writes_arrow(s: Seq<char>, p: int)
    requires
        arrow_at(s, p),
    ensures
        replace_arrows(s).contains('→'),
    decreases s.len(),
{
    if s.len() >= 2 && s[0] == '-' && s[1] == '>' {
        assert(replace_arrows(s)[0] == '→');
    } else {
        assert(p >= 1);
        let rest = s.drop_first();
        lemma_replace_writes_arrow(rest, p - 1);
        let k = choose|k: int| 0 <= k < replace_arrows(rest).len() && replace_arrows(rest)[k] == '→';
        assert(replace_arrows(s)[k + 1] == '→');
    }
}

/// A line with an arrow gives a `→` in the formatted output.
proof fn lemma_format_state_writes_arrow(lines: Seq<Seq<char>>, use_tabs: bool, tab_width: nat, j: int, q: int)
    requires
        0 <= j < lines.len(),
        arrow_at(lines[j], q),
    ensures
        format_state(lines, use_tabs, tab_width).0.contains('→'),
    decreases lines.len(),
{
    let (res, level) = format_state(lines.drop_last(), use_tabs, tab_width);
    let out = format_state(lines, use_tabs, tab_width).0;
    if j < lines.len() - 1 {
        assert(lines.drop_last()[j] == lines[j]);
        lemma_format_state_writes_arrow(lines.drop_last(), use_tabs, tab_width, j, q);
        let k = choose|k: int| 0 <= k < res.len() && res[k] == '→';
        let t = trim(lines.last());
        let f = replace_arrows(t);
        let ind = indent_text(level, use_tabs, tab_width);
        if !(t.len() == 0 && res.len() == 0) {
            if f.len() > 0 {
                assert(out[k] == (res + ind + f)[k]);
            } else {
                assert(out[k] == res[k]);
            }
        }
        assert(out[k] == '→');
    } else {
        let t = trim(lines.last());
        let q2 = lemma_trim_keeps_arrow(lines.last(), q);
        lemma_replace_writes_arrow(t, q2);
        let f = replace_arrows(t);
        lemma_replace_arrows_clean(t);
        let k = choose|k: int| 0 <= k < f.len() && f[k] == '→';
        let ind = indent_text(level, use_tabs, tab_width);
        assert(out[res.len() + ind.len() + k] == (res + ind + f)[res.len() + ind.len() + k]);
    }
}

/// Formatting writes every `->` of the source as `→`: a source with an
/// arrow gives an output with a `→` (and, by `lemma_format_leaves_no_arrow`,
/// without `->`).
pub proof fn lemma_format_writes_arrows(source: Seq<char>, use_tabs: bool, tab_width: nat, p: int)
    requires
        arrow_at(source, p),
    ensures
        format_text(source, use_tabs, tab_width).contains('→'),
{
    let x = collapse_spaces(source);
    let q = lemma_collapse_keeps_arrow(source, p);
    let (j, q2) = lemma_split_keeps_arrow(x, '\n', q);
    let pieces = split_on(x, '\n');
    let kept = if x.last() == '\n' { pieces.drop_last() } else { pieces };
    assert(kept[j] == pieces[j]);
    let ls = lines_of(x);
    assert(ls[j] == strip_cr(pieces[j]));
    assert(arrow_at(ls[j], q2));
    lemma_format_state_writes_arrow(ls, use_tabs, tab_width, j, q2);
    let res = format_state(ls, use_tabs, tab_width).0;
    let k = choose|k: int| 0 <= k < res.len() && res[k] == '→';
    if res.len() > 0 && res.last() == '\n' {
        assert(k < res.len() - 1);
        assert(res.drop_last()[k] == '→');
    }
}

impl Formatter {
    /// A formatter with the given options.
    pub fn new(options: FormatOptions) -> (r: Self)
        ensures
            r.options() == options,
            r.indent_level() == 0,
    {
        Formatter { options, indent_level: 0, output: String::new() }
    }

    /// The options of the formatter.
    pub closed spec fn options(&self) -> FormatOptions {
        self.options
    }

    /// The current indentation level.
    pub closed spec fn indent_level(&self) -> nat {
        self.indent_level as nat
    }

    /// The formatter as printed: `Formatter(indent=<level>, tab_width=<width>)`.
    pub fn to_text(&self) -> (r: String)
        ensures
            r@ == "Formatter(indent="@ + decimal(self.indent_level()) + ", tab_width="@
                + decimal(self.options().tab_width as nat) + ")"@,
    {
        let mut s = String::new();
        push_str(&mut s, "Formatter(indent=");
        push_decimal(&mut s, self.indent_level as u64);
        push_str(&mut s, ", tab_width=");
        push_decimal(&mut s, self.options.tab_width as u64);
        push_str(&mut s, ")");
        s
    }

    /// Formats NOVA source text.
    pub fn format(&mut self, source: &str) -> (r: Result<String, String>)
        requires
            source@.len() < usize::MAX,
        ensures
            r matches Ok(s) && s@ == format_text(source@, old(self).options().use_tabs, old(self).options().tab_width as nat),
            final(self).options() == old(self).options(),
            final(self).indent_level() == format_level(source@, old(self).options().use_tabs, old(self).options().tab_width as nat),
    {
        self.output = String::new();
        self.indent_level = 0;
        let normalized = normalize_whitespace(source);
        let formatted = self.format_tokens(&normalized);
        Ok(formatted)
    }

    fn format_tokens(&mut self, v: &Vec<char>) -> (r: String)
        requires
            old(self).indent_level == 0,
            v@.len() < usize::MAX,
        ensures
            r@ == {
                let res = format_state(lines_of(v@), old(self).options.use_tabs, old(self).options.tab_width as nat).0;
                if res.len() > 0 && res.last() == '\n' { res.drop_last() } else { res }
            },
            final(self).options == old(self).options,
            final(self).indent_level as nat
                == format_state(lines_of(v@), old(self).options.use_tabs, old(self).options.tab_width as nat).1,
    {
        let bounds = line_bounds(v);
        let ghost lines = lines_of(v@);
        let ghost ut = self.options.use_tabs;
        let ghost tw = self.options.tab_width as nat;
        let mut result = String::new();
        let mut k: usize = 0;
        assert(lines.take(0) =~= Seq::<Seq<char>>::empty());
        assert forall|i: int| 0 <= i < bounds@.len() implies {
            &&& (#[trigger] bounds@[i]).0 <= bounds@[i].1 <= v@.len()
            &&& lines[i] == v@.subrange(bounds@[i].0 as int, bounds@[i].1 as int)
        } by {
            assert(lines_of(v@)[i] == v@.subrange(bounds@[i].0 as int, bounds@[i].1 as int));
        }
        while k < bounds.len()
            invariant
                k <= bounds@.len(),
                bounds@.len() == lines.len(),
                lines == lines_of(v@),
                v@.len() < usize::MAX,
                ut == self.options.use_tabs,
                tw == self.options.tab_width as nat,
                self.options == old(self).options,
                forall|i: int| 0 < i < bounds@.len() ==> bounds@[i - 1].1 < (#[trigger] bounds@[i]).0,
                forall|i: int| 0 <= i < bounds@.len() ==> {
                    &&& (#[trigger] bounds@[i]).0 <= bounds@[i].1 <= v@.len()
                    &&& lines[i] == v@.subrange(bounds@[i].0 as int, bounds@[i].1 as int)
                },
                (result@, self.indent_level as nat) == format_state(lines.take(k as int), ut, tw),
                k > 0 ==> self.indent_level <= bounds@[k - 1].1 + 1,
                k == 0 ==> self.indent_level == 0,
            decreases bounds@.len() - k,
        {
            let (a0, b0) = bounds[k];
            assert(bounds@[k as int] == (a0, b0));
            let (a, b) = trim_bounds(v, a0, b0);
            let ghost t = v@.subrange(a as int, b as int);
            assert(t == trim(lines[k as int]));
            assert(lines.take(k + 1).drop_last() =~= lines.take(k as int));
            assert(lines.take(k + 1).last() == lines[k as int]);
            if b == a && result.as_str().is_empty() {
                k = k + 1;
                proof {
                    if k > 1 {
                        assert(bounds@[k - 1] == bounds@[k - 1]);
                    }
                }
                continue;
            }
            let ghost level = self.indent_level as nat;
            let ghost before = result@;
            if b > a {
                let ghost f = replace_arrows(t);
                self.push_indent(&mut result);
                push_replaced(&mut result, v, a, b);
                assert(f.len() > 0);
                assert(result@ =~= before + indent_text(level, ut, tw) + f);
            } else {
                assert(replace_arrows(t) =~= Seq::<char>::empty());
            }
            push_char(&mut result, '\n');
            proof {
                if k > 0 {
                    assert(bounds@[k as int] == bounds@[k as int]);
                    assert(bounds@[k - 1].1 < a0);
                }
            }
            self.update_indent_level(v, a, b);
            k = k + 1;
        }
        assert(lines.take(bounds@.len() as int) =~= lines);
        if !result.as_str().is_empty() {
            let ghost before = result@;
            let last = last_char(&result);
            if last == '\n' {
                pop_char(&mut result);
            }
        }
        result
    }

    /// Appends the indentation for the current level.
    fn push_indent(&self, s: &mut String)
        ensures
            final(s)@ == old(s)@ + indent_text(self.indent_level as nat, self.options.use_tabs, self.options.tab_width as nat),
    {
        let ghost start = s@;
        let mut i: usize = 0;
        if self.options.use_tabs {
            while i < self.indent_level
                invariant
                    i <= self.indent_level,
                    s@ == start + Seq::new(i as nat, |j: int| '\t'),
                decreases self.indent_level - i,
            {
                push_char(s, '\t');
                i = i + 1;
                assert(s@ =~= start + Seq::new(i as nat, |j: int| '\t'));
            }
            assert(s@ =~= start + indent_text(self.indent_level as nat, true, self.options.tab_width as nat));
        } else {
            let w = self.options.tab_width;
            while i < self.indent_level
                invariant
                    i <= self.indent_level,
                    w == self.options.tab_width,
                    s@ == start + Seq::new((i * w) as nat, |j: int| ' '),
                decreases self.indent_level - i,
            {
                let mut j: usize = 0;
                let ghost mid = s@;
                while j < w
                    invariant
                        j <= w,
                        s@ == mid + Seq::new(j as nat, |x: int| ' '),
                    decreases w - j,
                {
                    push_char(s, ' ');
                    j = j + 1;
                    assert(s@ =~= mid + Seq::new(j as nat, |x: int| ' '));
                }
                assert((i + 1) * w == i * w + w) by (nonlinear_arith);
                i = i + 1;
                assert(s@ =~= start + Seq::new((i * w) as nat, |j: int| ' '));
            }
            assert(s@ =~= start + indent_text(self.indent_level as nat, false, self.options.tab_width as nat));
        }
    }

    /// Updates the level after the (trimmed) line `v[a..b]`.
    fn update_indent_level(&mut self, v: &Vec<char>, a: usize, b: usize)
        requires
            a <= b <= v@.len(),
            old(self).indent_level as int + 1 + (b - a) <= usize::MAX,
        ensures
            final(self).indent_level as nat == next_level(old(self).indent_level as nat, v@.subrange(a as int, b as int)),
            final(self).indent_level as int <= old(self).indent_level as int + 1 + (b - a),
            final(self).options == old(self).options,
    {
        let ghost t = v@.subrange(a as int, b as int);
        let (open, close) = count_braces(v, a, b);
        if b - a == 1 && v[a] == '}' {
            assert(t =~= seq!['}']);
            if self.indent_level > 0 {
                self.indent_level = self.indent_level - 1;
            }
        } else {
            assert(t != seq!['}']) by {
                if b == a + 1 { assert(t[0] != '}'); } else { assert(t.len() != 1); }
            }
        }
        if b > a && v[b - 1] == '{' {
            self.indent_level = self.indent_level + 1;
        }
        if open > close {
            self.indent_level = self.indent_level + (open - close);
        }
    }
}

/// The numbers of `{` and of `}` in `v[a..b]`; neither exceeds its length.
fn count_braces(v: &Vec<char>, a: usize, b: usize) -> (r: (usize, usize))
    requires
        a <= b <= v@.len(),
    ensures
        r.0 == count_char(v@.subrange(a as int, b as int), '{'),
        r.1 == count_char(v@.subrange(a as int, b as int), '}'),
        r.0 <= b - a,
        r.1 <= b - a,
{
    let mut o: usize = 0;
    let mut c: usize = 0;
    let mut i = a;
    assert(v@.subrange(a as int, a as int) =~= Seq::<char>::empty());
    while i < b
        invariant
            a <= i <= b <= v@.len(),
            o == count_char(v@.subrange(a as int, i as int), '{'),
            c == count_char(v@.subrange(a as int, i as int), '}'),
            o <= i - a,
            c <= i - a,
        decreases b - i,
    {
        assert(v@.subrange(a as int, i + 1).drop_last() =~= v@.subrange(a as int, i as int));
        if v[i] == '{' {
            o = o + 1;
        }
        if v[i] == '}' {
            c = c + 1;
        }
        i = i + 1;
    }
    (o, c)
}

/// Appends `v[a..b]` with each `->` written `→`.
fn push_replaced(s: &mut String, v: &Vec<char>, a: usize, b: usize)
    requires
        a <= b <= v@.len(),
    ensures
        final(s)@ == old(s)@ + replace_arrows(v@.subrange(a as int, b as int)),
{
    let mut i = a;
    while i < b
        invariant
            a <= i <= b <= v@.len(),
            s@ + replace_arrows(v@.subrange(i as int, b as int)) == old(s)@ + replace_arrows(v@.subrange(a as int, b as int)),
        decreases b - i,
    {
        let ghost rest = v@.subrange(i as int, b as int);
        if i + 1 < b && v[i] == '-' && v[i + 1] == '>' {
            assert(rest.subrange(2, rest.len() as int) =~= v@.subrange(i + 2, b as int));
            push_char(s, '→');
            i = i + 2;
        } else {
            assert(rest.drop_first() =~= v@.subrange(i + 1, b as int));
            push_char(s, v[i]);
            i = i + 1;
        }
    }
    assert(v@.subrange(b as int, b as int) =~= Seq::<char>::empty());
}

/// The source with runs of spaces collapsed and leading spaces dropped.
fn normalize_whitespace(source: &str) -> (r: Vec<char>)
    ensures
        r@ == collapse_spaces(source@),
        r@.len() <= source@.len(),
{
    let chars = crate::text::chars_of(source);
    let mut out: Vec<char> = Vec::new();
    let mut prev = ' ';
    let mut i: usize = 0;
    assert(chars@.take(0) =~= Seq::<char>::empty());
    while i < chars.len()
        invariant
            i <= chars@.len(),
            (out@, prev) == collapse_state(chars@.take(i as int)),
            out@.len() <= i,
        decreases chars@.len() - i,
    {
        assert(chars@.take(i + 1).drop_last() =~= chars@.take(i as int));
        let c = chars[i];
        if !(c == ' ' && prev == ' ') {
            out.push(c);
            prev = c;
        }
        i = i + 1;
    }
    assert(chars@.take(chars@.len() as int) =~= chars@);
    out
}

/// The last character of a non-empty string.
fn last_char(s: &String) -> (c: char)
    requires
        s@.len() > 0,
    ensures
        c == s@.last(),
{
    let v = crate::text::chars_of(s.as_str());
    v[v.len() - 1]
}

/// Removes the last character of a non-empty string.
fn pop_char(s: &mut String)
    requires
        old(s)@.len() > 0,
    ensures
        final(s)@ == old(s)@.drop_last(),
{
    let v = crate::text::chars_of(s.as_str());
    let mut t = String::new();
    let mut i: usize = 0;
    while i < v.len() - 1
        invariant
            v@ == old(s)@,
            v@.len() > 0,
            i + 1 <= v@.len(),
            t@ == v@.take(i as int),
        decreases v@.len() - i,
    {
        push_char(&mut t, v[i]);
        i = i + 1;
        assert(t@ =~= v@.take(i as int));
    }
    assert(t@ =~= old(s)@.drop_last());
    *s = t;
}

/// Formats NOVA source text with the given options.
pub fn format_source(source: &str, options: FormatOptions) -> (r: Result<String, String>)
    requires
        source@.len() < usize::MAX,
    ensures
        r matches Ok(s) && s@ == format_text(source@, options.use_tabs, options.tab_width as nat),
{
    let mut formatter = Formatter::new(options);
    formatter.format(source)
}

/// Formats NOVA source text with the default options: four spaces per level.
pub fn format_source_default(source: &str) -> (r: Result<String, String>)
    requires
        source@.len() < usize::MAX,
    ensures
        r matches Ok(s) && s@ == format_text(source@, false, 4),
{
    format_source(source, FormatOptions::default())
}

} // verus!
