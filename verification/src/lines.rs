use vstd::prelude::*;

verus! {

/// The document split into lines, each keeping its terminating newline.
/// Built from the back: a character either starts a new line (when the text so
/// far ends with a newline, or there is none yet) or extends the last one.
pub open spec fn spec_lines(s: Seq<char>) -> Seq<Seq<char>>
    decreases s.len(),
{
    if s.len() == 0 {
        Seq::empty()
    } else {
        let prev = spec_lines(s.drop_last());
        let c = s.last();
        if prev.len() == 0 || prev.last().last() == '\n' {
            prev.push(seq![c])
        } else {
            prev.update(prev.len() - 1, prev.last().push(c))
        }
    }
}

/// Every line is non-empty, and the concatenation of all lines is the text.
pub proof fn lemma_lines_wf(s: Seq<char>)
    ensures
        forall|i: int| 0 <= i < spec_lines(s).len() ==> #[trigger] spec_lines(s)[i].len() > 0,
        spec_lines(s).flatten() == s,
    decreases s.len(),
{
    if s.len() == 0 {
        assert(spec_lines(s) =~= Seq::<Seq<char>>::empty());
        assert(Seq::<Seq<char>>::empty().flatten() =~= s);
    } else {
        lemma_lines_wf(s.drop_last());
        let prev = spec_lines(s.drop_last());
        let c = s.last();
        if prev.len() == 0 || prev.last().last() == '\n' {
            let cur = prev.push(seq![c]);
            prev.lemma_flatten_and_flatten_alt_are_equivalent();
            cur.lemma_flatten_and_flatten_alt_are_equivalent();
            assert(cur.drop_last() =~= prev);
            assert(cur.flatten_alt() == prev.flatten_alt() + seq![c]);
            assert(prev.flatten_alt() + seq![c] =~= s);
        } else {
            let cur = prev.update(prev.len() - 1, prev.last().push(c));
            prev.lemma_flatten_and_flatten_alt_are_equivalent();
            cur.lemma_flatten_and_flatten_alt_are_equivalent();
            assert(cur.drop_last() =~= prev.drop_last());
            assert(cur.flatten_alt() == cur.drop_last().flatten_alt() + cur.last());
            assert(prev.flatten_alt() == prev.drop_last().flatten_alt() + prev.last());
            assert(prev.drop_last().flatten_alt() + prev.last().push(c) =~= (
            prev.drop_last().flatten_alt() + prev.last()).push(c));
            assert(s.drop_last().push(c) =~= s);
        }
    }
}

/// Split the code into its lines, keeping each line's trailing newline.
pub fn split_lines(code: &str) -> (r: Vec<String>)
    ensures
        r.deep_view() == spec_lines(code@),
{
    let n = code.unicode_len();
    let mut out: Vec<String> = Vec::new();
    let mut start: usize = 0;
    let mut i: usize = 0;
    while i < n
        invariant
            start <= i <= n,
            n == code@.len(),
            start < n || start == i,
            out.deep_view() == spec_lines(code@.subrange(0, start as int)),
            start < i ==> out.deep_view().push(code@.subrange(start as int, i as int))
                == spec_lines(code@.subrange(0, i as int)),
            forall|j: int| start <= j < i ==> code@[j] != '\n',
            out@.len() > 0 ==> out@[out@.len() - 1]@.last() == '\n',
        decreases n - i,
    {
        let c = code.get_char(i);
        proof {
            let pre = code@.subrange(0, i as int);
            let ext = code@.subrange(0, i + 1);
            assert(ext.drop_last() =~= pre);
            assert(ext.last() == code@[i as int]);
            if start < i {
                assert(code@.subrange(start as int, i as int).push(c) =~= code@.subrange(
                    start as int,
                    i + 1,
                ));
            }
        }
        if c == '\n' {
            let line = code.substring_char(start, i + 1);
            out.push(line.to_owned());
            proof {
                let pre = code@.subrange(0, i as int);
                let prev = spec_lines(pre);
                if start == i {
                    assert(spec_lines(code@.subrange(0, i + 1)) == prev.push(seq![c]));
                    assert(code@.subrange(start as int, i + 1) =~= seq![c]);
                } else {
                    assert(prev.len() > 0 && prev.last().last() != '\n') by {
                        if prev.len() > 0 {
                        }
                    }
                }
                assert(out.deep_view() =~= spec_lines(code@.subrange(0, i + 1)));
            }
            start = i + 1;
        } else {
            proof {
                let pre = code@.subrange(0, i as int);
                let prev = spec_lines(pre);
                if start == i {
                    assert(out.deep_view() == prev);
                    assert(spec_lines(code@.subrange(0, i + 1)) == prev.push(seq![c]));
                    assert(code@.subrange(start as int, i + 1) =~= seq![c]);
                } else {
                    assert(out.deep_view().push(code@.subrange(start as int, i as int)) == prev);
                    assert(prev.len() > 0);
                    assert(prev.last() == code@.subrange(start as int, i as int));
                    assert(prev.last().last() == code@[i - 1]);
                    assert(code@[i - 1] != '\n');
                    assert(spec_lines(code@.subrange(0, i + 1)) == prev.update(
                        prev.len() - 1,
                        prev.last().push(c),
                    ));
                    assert(out.deep_view().push(code@.subrange(start as int, i + 1))
                        =~= spec_lines(code@.subrange(0, i + 1)));
                }
            }
        }
        i += 1;
    }
    if start < n {
        let line = code.substring_char(start, n);
        out.push(line.to_owned());
        proof {
            assert(out.deep_view() =~= spec_lines(code@.subrange(0, n as int)));
        }
    }
    proof {
        assert(code@.subrange(0, n as int) =~= code@);
    }
    out
}

/// The character sequences of a sequence of strings.
pub open spec fn str_views(s: Seq<String>) -> Seq<Seq<char>> {
    s.map_values(|x: String| x@)
}

/// The text without its trailing newlines.
pub open spec fn spec_trim_nl(s: Seq<char>) -> Seq<char>
    decreases s.len(),
{
    if s.len() > 0 && s.last() == '\n' {
        spec_trim_nl(s.drop_last())
    } else {
        s
    }
}

/// How many columns a tab at column `col` fills: up to the next multiple of
/// the tab width. A tab width of zero removes tabs.
pub open spec fn tab_fill(col: int, tw: int) -> int {
    if tw <= 0 {
        0
    } else {
        tw - (col % tw)
    }
}

pub open spec fn spaces(n: int) -> Seq<char> {
    Seq::new(n as nat, |i: int| ' ')
}

/// What one character contributes at column `col`.
pub open spec fn expand_one(c: char, col: int, tw: int) -> Seq<char> {
    if c == '\t' {
        spaces(tab_fill(col, tw))
    } else {
        seq![c]
    }
}

/// Tab expansion: each tab advances to the next multiple of the tab width,
/// counted in glyph cells from the start of the line; other characters pass
/// through.
pub open spec fn spec_expand(s: Seq<char>, col: int, tw: int) -> Seq<char>
    decreases s.len(),
{
    if s.len() == 0 {
        Seq::empty()
    } else {
        let head = expand_one(s[0], col, tw);
        head + spec_expand(s.drop_first(), col + head.len(), tw)
    }
}

/// Expansion works one appended character at a time.
pub proof fn lemma_expand_push(s: Seq<char>, c: char, col: int, tw: int)
    ensures
        spec_expand(s.push(c), col, tw) == spec_expand(s, col, tw) + expand_one(
            c,
            col + spec_expand(s, col, tw).len(),
            tw,
        ),
    decreases s.len(),
{
    if s.len() == 0 {
        let one = expand_one(c, col, tw);
        assert(s.push(c)[0] == c);
        assert(s.push(c).drop_first() =~= Seq::<char>::empty());
        assert(spec_expand(s.push(c), col, tw) == one + spec_expand(
            Seq::<char>::empty(),
            col + one.len(),
            tw,
        ));
        assert(one + Seq::<char>::empty() =~= one);
        assert(spec_expand(s, col, tw) + one =~= one);
    } else {
        let head = expand_one(s[0], col, tw);
        assert(s.push(c)[0] == s[0]);
        assert(s.push(c).drop_first() =~= s.drop_first().push(c));
        lemma_expand_push(s.drop_first(), c, col + head.len() as int, tw);
        assert(spec_expand(s.push(c), col, tw) == head + spec_expand(
            s.drop_first().push(c),
            col + head.len(),
            tw,
        ));
        let tailx = spec_expand(s.drop_first(), col + head.len(), tw);
        let one = expand_one(c, col + head.len() + tailx.len(), tw);
        assert(head + (tailx + one) =~= (head + tailx) + one);
        assert(spec_expand(s, col, tw) == head + tailx);
    }
}

/// Trim the trailing newlines of one span's text and expand its tabs,
/// starting at column `col` of the line; also hand back the column after it.
pub fn expand_span(text: &str, col: u64, tw: u8) -> (r: (Vec<char>, u64))
    requires
        text@.len() <= 0xFFFF_FFFF,
        col <= 0xFFFF_FFFF_FFFF,
    ensures
        r.0@ == spec_expand(spec_trim_nl(text@), col as int, tw as int),
        r.1 == col + r.0@.len(),
        r.0@.len() <= text@.len() * 256,
    decreases text@.len(),
{
    let n = text.unicode_len();
    proof {
        assert(text@.subrange(0, n as int) =~= text@);
    }
    let mut e: usize = n;
    while e > 0 && text.get_char(e - 1) == '\n'
        invariant
            e <= n,
            n == text@.len(),
            spec_trim_nl(text@) == spec_trim_nl(text@.subrange(0, e as int)),
        decreases e,
    {
        proof {
            assert(text@.subrange(0, e as int).drop_last() =~= text@.subrange(0, e - 1));
        }
        e = e - 1;
    }
    proof {
        if e > 0 {
            assert(spec_trim_nl(text@.subrange(0, e as int)) == text@.subrange(0, e as int));
        } else {
            assert(text@.subrange(0, 0) =~= Seq::<char>::empty());
        }
    }
    let trimmed_len = e;
    let mut out: Vec<char> = Vec::new();
    let mut i: usize = 0;
    let mut cur: u64 = col;
    while i < trimmed_len
        invariant
            i <= trimmed_len,
            trimmed_len <= n,
            n == text@.len() <= 0xFFFF_FFFF,
            col <= 0xFFFF_FFFF_FFFF,
            spec_trim_nl(text@) == text@.subrange(0, trimmed_len as int),
            out@ == spec_expand(text@.subrange(0, i as int), col as int, tw as int),
            cur == col + out@.len(),
            out@.len() <= i * 256,
        decreases trimmed_len - i,
    {
        let c = text.get_char(i);
        proof {
            assert(text@.subrange(0, i + 1).drop_last() =~= text@.subrange(0, i as int));
            assert(text@.subrange(0, i + 1) =~= text@.subrange(0, i as int).push(c));
            lemma_expand_push(text@.subrange(0, i as int), c, col as int, tw as int);
        }
        if c == '\t' {
            if tw > 0 {
                let fill: u64 = (tw as u64) - (cur % (tw as u64));
                let mut k: u64 = 0;
                while k < fill
                    invariant
                        k <= fill,
                        fill <= 256,
                        out@ == spec_expand(
                            text@.subrange(0, i as int),
                            col as int,
                            tw as int,
                        ) + spaces(k as int),
                    decreases fill - k,
                {
                    out.push(' ');
                    proof {
                        assert(spec_expand(text@.subrange(0, i as int), col as int, tw as int)
                            + spaces(k + 1) =~= (spec_expand(
                            text@.subrange(0, i as int),
                            col as int,
                            tw as int,
                        ) + spaces(k as int)).push(' '));
                    }
                    k += 1;
                }
                cur = cur + fill;
            } else {
                proof {
                    assert(out@ + spaces(0) =~= out@);
                }
            }
            proof {
                assert(out@ =~= spec_expand(text@.subrange(0, i + 1), col as int, tw as int));
            }
        } else {
            out.push(c);
            proof {
                assert(out@ =~= spec_expand(text@.subrange(0, i + 1), col as int, tw as int));
            }
            cur = cur + 1;
        }
        i += 1;
    }
    proof {
        assert(text@.subrange(0, trimmed_len as int) == spec_trim_nl(text@));
    }
    (out, cur)
}

} // verus!
