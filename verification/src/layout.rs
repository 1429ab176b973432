use vstd::prelude::*;

verus! {

/// Pad between code and the edge of the code area, in pixels.
pub const CODE_PAD: u64 = 25;

/// The code area is never narrower than this.
pub const MIN_WIDTH: u64 = 150;

/// Number of decimal digits of a non-negative integer.
pub open spec fn spec_digits(n: int) -> int
    decreases n,
{
    if n < 10 {
        1
    } else {
        1 + spec_digits(n / 10)
    }
}

pub open spec fn pow10(k: nat) -> int
    decreases k,
{
    if k == 0 {
        1
    } else {
        10 * pow10((k - 1) as nat)
    }
}

/// A number below the k-th power of ten has at most k digits.
pub proof fn lemma_digits_le(n: int, k: nat)
    requires
        k >= 1,
        0 <= n < pow10(k),
    ensures
        spec_digits(n) <= k,
    decreases k,
{
    if n >= 10 {
        assert(k >= 2) by {
            if k == 1 {
                assert(pow10(1nat) == 10);
            }
        }
        assert(pow10(k) == 10 * pow10((k - 1) as nat));
        assert(pow10((k - 1) as nat) >= 1) by {
            lemma_pow10_pos((k - 1) as nat);
        }
        assert(n / 10 < pow10((k - 1) as nat));
        lemma_digits_le(n / 10, (k - 1) as nat);
    }
}

pub proof fn lemma_pow10_pos(k: nat)
    ensures
        pow10(k) >= 1,
    decreases k,
{
    if k > 0 {
        lemma_pow10_pos((k - 1) as nat);
    }
}

/// Every number has at least one digit.
pub proof fn lemma_digits_pos(n: int)
    ensures
        spec_digits(n) >= 1,
    decreases n,
{
    if n >= 10 {
        lemma_digits_pos(n / 10);
    }
}

/// Count the decimal digits of `n`.
pub fn digits(n: u128) -> (r: u32)
    ensures
        r == spec_digits(n as int),
        1 <= r <= 39,
    decreases n,
{
    proof {
        assert(pow10(39nat) > 0xFFFFFFFF_FFFFFFFF_FFFFFFFF_FFFFFFFFu128) by {
            reveal_with_fuel(pow10, 41);
        }
        lemma_digits_le(n as int, 39nat);
    }
    if n < 10 {
        1
    } else {
        1 + digits(n / 10)
    }
}

/// Width of the line-number column in characters: the decimal digit count
/// of the highest visible line number (the first displayed number plus the
/// drawn rows less one), zero when the gutter is off.
pub open spec fn spec_gutter_chars(n_lines: int, line_offset: int, on: bool) -> int {
    if !on {
        0
    } else {
        let rows: int = if n_lines <= 1 {
            1
        } else {
            n_lines
        };
        spec_digits(line_offset + rows - 1)
    }
}

pub fn gutter_chars(n_lines: usize, line_offset: u32, on: bool) -> (r: u32)
    ensures
        r == spec_gutter_chars(n_lines as int, line_offset as int, on),
{
    if !on {
        0
    } else {
        let rows: u128 = if n_lines <= 1 {
            1
        } else {
            n_lines as u128
        };
        digits(line_offset as u128 + rows - 1)
    }
}

/// Width of the code image: the widest content plus the pad, floored.
pub open spec fn spec_image_width(max_width: int) -> int {
    if max_width + CODE_PAD < MIN_WIDTH {
        MIN_WIDTH as int
    } else {
        max_width + CODE_PAD
    }
}

/// The maximum of a sequence against a floor.
pub open spec fn seq_max(s: Seq<int>, floor: int) -> int
    decreases s.len(),
{
    if s.len() == 0 {
        floor
    } else if seq_max(s.drop_last(), floor) >= s.last() {
        seq_max(s.drop_last(), floor)
    } else {
        s.last()
    }
}

pub proof fn lemma_seq_max_ge_floor(s: Seq<int>, floor: int)
    ensures
        seq_max(s, floor) >= floor,
        forall|i: int| 0 <= i < s.len() ==> seq_max(s, floor) >= s[i],
    decreases s.len(),
{
    if s.len() > 0 {
        lemma_seq_max_ge_floor(s.drop_last(), floor);
        assert forall|i: int| 0 <= i < s.len() implies seq_max(s, floor) >= s[i] by {
            if i < s.len() - 1 {
                assert(s.drop_last()[i] == s[i]);
            }
        }
    }
}

/// Contribution of one line to the content width: lines with nothing to draw
/// contribute nothing; the others reach from the left pad over their text.
pub open spec fn spec_line_reach(left_pad: int, content: Option<int>) -> int {
    match content {
        Some(w) => left_pad + w,
        None => 0,
    }
}

/// The widest point of the drawn code, over all lines.
pub open spec fn spec_code_max(left_pad: int, contents: Seq<Option<int>>) -> int {
    seq_max(contents.map_values(|c: Option<int>| spec_line_reach(left_pad, c)), 0)
}

/// Widening the left pad moves every drawn line's reach by the same amount:
/// when some line is drawn at all, the widest point moves by exactly that
/// amount.
pub proof fn lemma_code_max_shift(left_pad: int, delta: int, contents: Seq<Option<int>>)
    requires
        delta >= 0,
        left_pad >= 0,
        exists|i: int| 0 <= i < contents.len() && contents[i] is Some,
        forall|i: int|
            0 <= i < contents.len() ==> ((#[trigger] contents[i]) matches Some(w) ==> w >= 0),
    ensures
        spec_code_max(left_pad + delta, contents) == spec_code_max(left_pad, contents) + delta,
    decreases contents.len(),
{
    let f0 = |c: Option<int>| spec_line_reach(left_pad, c);
    let f1 = |c: Option<int>| spec_line_reach(left_pad + delta, c);
    let m0 = contents.map_values(f0);
    let m1 = contents.map_values(f1);
    assert(m0.len() == contents.len());
    if contents.len() > 0 {
        let pre = contents.drop_last();
        assert(m0.drop_last() =~= pre.map_values(f0));
        assert(m1.drop_last() =~= pre.map_values(f1));
        if exists|i: int| 0 <= i < pre.len() && pre[i] is Some {
            lemma_code_max_shift(left_pad, delta, pre);
            lemma_seq_max_ge_floor(pre.map_values(f0), 0);
            lemma_seq_max_ge_floor(pre.map_values(f1), 0);
            if contents.last() is Some {
                assert(spec_code_max(left_pad, pre) >= left_pad) by {
                    let j = choose|i: int| 0 <= i < pre.len() && pre[i] is Some;
                    assert(pre.map_values(f0)[j] >= left_pad);
                }
            }
        } else {
            // the last line is the only drawn one
            assert(contents.last() is Some) by {
                let j = choose|i: int|
                    0 <= i < contents.len() && contents[i] is Some;
                if j < contents.len() - 1 {
                    assert(pre[j] == contents[j]);
                }
            }
            lemma_code_max_none(left_pad, pre);
            lemma_code_max_none(left_pad + delta, pre);
            let w = contents.last()->Some_0;
            assert(m0.last() == left_pad + w);
            assert(seq_max(m0, 0) == left_pad + w);
            assert(seq_max(m1, 0) == left_pad + delta + w);
        }
    }
}

/// Lines with nothing to draw leave the widest point at the floor.
pub proof fn lemma_code_max_none(left_pad: int, contents: Seq<Option<int>>)
    requires
        forall|i: int| 0 <= i < contents.len() ==> !((#[trigger] contents[i]) is Some),
    ensures
        spec_code_max(left_pad, contents) == 0,
    decreases contents.len(),
{
    let f0 = |c: Option<int>| spec_line_reach(left_pad, c);
    if contents.len() > 0 {
        let pre = contents.drop_last();
        assert(contents.map_values(f0).drop_last() =~= pre.map_values(f0));
        lemma_code_max_none(left_pad, pre);
        assert(contents.map_values(f0).last() == 0);
    }
}

} // verus!
