use vstd::prelude::*;

verus! {

/// The byte that ends a line.
pub const NEWLINE: u8 = 10;

/// The byte that starts a comment line.
pub const COMMENT: u8 = 35;

/// The byte of an optional leading plus sign.
pub const PLUS: u8 = 43;

/// The byte of the digit zero.
pub const ZERO: u8 = 48;

/// Why the text of a candidate file gave no candidate list.
#[derive(Clone, Copy, Debug, PartialEq, Eq, Structural)]
pub enum ConfigError {
    /// A line that is neither empty nor a comment is not a `u32` in decimal.
    InvalidNumber,
}

/// The pieces of `b` between newlines, in order: `n` newlines give `n + 1`
/// pieces, so a text that ends in a newline ends in an empty piece.
pub open spec fn split_lines(b: Seq<u8>) -> Seq<Seq<u8>>
    decreases b.len(),
{
    if b.len() == 0 {
        seq![Seq::empty()]
    } else {
        let rest = split_lines(b.drop_last());
        if b.last() == NEWLINE {
            rest.push(Seq::empty())
        } else {
            rest.update(rest.len() - 1, rest.last().push(b.last()))
        }
    }
}

/// A line that holds a candidate: neither empty nor a comment.
pub open spec fn is_candidate_line(l: Seq<u8>) -> bool {
    l.len() > 0 && l[0] != COMMENT
}

/// The candidate lines among `lines`, in order.
pub open spec fn keep_candidates(lines: Seq<Seq<u8>>) -> Seq<Seq<u8>> {
    lines.filter(|l: Seq<u8>| is_candidate_line(l))
}

/// The candidate lines of the text `b`, in order.
pub open spec fn candidate_lines_of(b: Seq<u8>) -> Seq<Seq<u8>> {
    keep_candidates(split_lines(b))
}

/// The views of a list of byte vectors.
pub open spec fn lines_view(v: Seq<Vec<u8>>) -> Seq<Seq<u8>> {
    v.map_values(|l: Vec<u8>| l@)
}

proof fn lemma_keep_candidates_push(lines: Seq<Seq<u8>>, l: Seq<u8>)
    ensures
        keep_candidates(lines.push(l)) == if is_candidate_line(l) {
            keep_candidates(lines).push(l)
        } else {
            keep_candidates(lines)
        },
{
    lines.lemma_filter_push(l, |l: Seq<u8>| is_candidate_line(l));
}

/// Splits the text `contents` into lines at each newline byte and returns the
/// lines that are neither empty nor start with `#`, in order.
pub fn candidate_lines(contents: &[u8]) -> (r: Vec<Vec<u8>>)
    ensures
        lines_view(r@) == candidate_lines_of(contents@),
{
    let mut kept: Vec<Vec<u8>> = Vec::new();
    let mut cur: Vec<u8> = Vec::new();
    let ghost mut done: Seq<Seq<u8>> = Seq::empty();
    let mut i: usize = 0;
    while i < contents.len()
        invariant
            i <= contents.len(),
            split_lines(contents@.subrange(0, i as int)) == done.push(cur@),
            lines_view(kept@) == keep_candidates(done),
        decreases contents.len() - i,
    {
        let byte = contents[i];
        let ghost prefix = contents@.subrange(0, i as int);
        assert(contents@.subrange(0, i + 1).drop_last() == prefix);
        if byte == NEWLINE {
            proof {
                lemma_keep_candidates_push(done, cur@);
                done = done.push(cur@);
            }
            if cur.len() > 0 && cur[0] != COMMENT {
                let ghost before = kept@;
                kept.push(cur);
                assert(lines_view(kept@) =~= lines_view(before).push(kept@.last()@));
            }
            cur = Vec::new();
            assert(split_lines(contents@.subrange(0, i + 1)) =~= done.push(cur@));
        } else {
            cur.push(byte);
            assert(split_lines(contents@.subrange(0, i + 1)) =~= done.push(cur@));
        }
        i = i + 1;
    }
    assert(contents@.subrange(0, contents.len() as int) == contents@);
    proof {
        lemma_keep_candidates_push(done, cur@);
    }
    if cur.len() > 0 && cur[0] != COMMENT {
        let ghost before = kept@;
        kept.push(cur);
        assert(lines_view(kept@) =~= lines_view(before).push(kept@.last()@));
    }
    kept
}

/// A decimal digit byte, `0` to `9`.
pub open spec fn is_digit(b: u8) -> bool {
    ZERO <= b && b < ZERO + 10
}

/// The number that the digits `d` write in decimal, most significant first.
pub open spec fn decimal_value(d: Seq<u8>) -> nat
    decreases d.len(),
{
    if d.len() == 0 {
        0
    } else {
        decimal_value(d.drop_last()) * 10 + (d.last() - ZERO) as nat
    }
}

/// The digits of a number text: the text without its leading plus sign, if any.
pub open spec fn digits_part(l: Seq<u8>) -> Seq<u8> {
    if l.len() > 0 && l[0] == PLUS {
        l.drop_first()
    } else {
        l
    }
}

/// The `u32` that the text `l` writes: an optional `+`, then one or more
/// decimal digits whose value fits in a `u32`; `None` for any other text.
pub open spec fn parsed_u32(l: Seq<u8>) -> Option<u32> {
    let d = digits_part(l);
    if d.len() > 0 && (forall|i: int| 0 <= i < d.len() ==> is_digit(#[trigger] d[i]))
        && decimal_value(d) <= u32::MAX {
        Some(decimal_value(d) as u32)
    } else {
        None
    }
}

/// Reads a `u32` written in decimal, with an optional leading `+`.
pub fn parse_u32(text: &[u8]) -> (r: Option<u32>)
    ensures
        r == parsed_u32(text@),
{
    let start: usize = if text.len() > 0 && text[0] == PLUS {
        1
    } else {
        0
    };
    let ghost d = digits_part(text@);
    assert(d == text@.subrange(start as int, text@.len() as int));
    if start == text.len() {
        return None;
    }
    let mut value: u64 = 0;
    let mut too_big = false;
    let mut i: usize = start;
    while i < text.len()
        invariant
            start <= i <= text.len(),
            d == digits_part(text@),
            d == text@.subrange(start as int, text@.len() as int),
            forall|j: int| start <= j < i ==> is_digit(#[trigger] text@[j]),
            too_big ==> decimal_value(text@.subrange(start as int, i as int)) > u32::MAX,
            !too_big ==> value == decimal_value(text@.subrange(start as int, i as int)),
            !too_big ==> value <= u32::MAX,
        decreases text.len() - i,
    {
        let b = text[i];
        if b < ZERO || b >= ZERO + 10 {
            assert(!is_digit(d[i - start]));
            return None;
        }
        let ghost prev = text@.subrange(start as int, i as int);
        assert(text@.subrange(start as int, i + 1).drop_last() == prev);
        if !too_big {
            value = value * 10 + (b - ZERO) as u64;
            if value > 0xffff_ffff {
                too_big = true;
            }
        } else {
            assert(decimal_value(prev) * 10 + (b - ZERO) as nat > u32::MAX) by (nonlinear_arith)
                requires
                    decimal_value(prev) > u32::MAX,
            ;
        }
        i = i + 1;
    }
    assert(text@.subrange(start as int, text.len() as int) == d);
    assert forall|k: int| 0 <= k < d.len() implies is_digit(#[trigger] d[k]) by {
        assert(d[k] == text@[start + k]);
    }
    if too_big {
        None
    } else {
        Some(value as u32)
    }
}

/// What each text in `lines` writes as a `u32`, if every one writes one.
pub open spec fn parsed_all(lines: Seq<Seq<u8>>) -> Option<Seq<u32>> {
    if forall|i: int| 0 <= i < lines.len() ==> (#[trigger] parsed_u32(lines[i])) is Some {
        Some(lines.map_values(|l: Seq<u8>| parsed_u32(l)->Some_0))
    } else {
        None
    }
}

/// Reads the candidate values from the text of a candidate file: one value per
/// line, empty lines and lines that start with `#` skipped. Fails when a
/// remaining line is not a `u32` in decimal. A text with no candidate line
/// gives an empty list.
pub fn parse_steppable_values(contents: &[u8]) -> (r: Result<Vec<u32>, ConfigError>)
    ensures
        match parsed_all(candidate_lines_of(contents@)) {
            Some(values) => r matches Ok(v) && v@ == values,
            None => r == Err::<Vec<u32>, ConfigError>(ConfigError::InvalidNumber),
        },
{
    let lines = candidate_lines(contents);
    let ghost ls = candidate_lines_of(contents@);
    let mut values: Vec<u32> = Vec::new();
    let mut i: usize = 0;
    while i < lines.len()
        invariant
            i <= lines.len(),
            ls == candidate_lines_of(contents@),
            lines_view(lines@) == ls,
            values@.len() == i,
            forall|j: int| 0 <= j < i ==> (#[trigger] parsed_u32(ls[j])) == Some(values@[j]),
        decreases lines.len() - i,
    {
        assert(lines@[i as int]@ == ls[i as int]);
        match parse_u32(lines[i].as_slice()) {
            Some(x) => values.push(x),
            None => {
                assert(parsed_u32(ls[i as int]) is None);
                return Err(ConfigError::InvalidNumber);
            },
        }
        i = i + 1;
    }
    assert(values@ =~= ls.map_values(|l: Seq<u8>| parsed_u32(l)->Some_0));
    Ok(values)
}

} // verus!
