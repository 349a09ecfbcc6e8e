use vstd::prelude::*;
use crate::geometry::Point;

verus! {

pub open spec fn is_digit(c: u8) -> bool {
    48 <= c && c <= 57
}

pub open spec fn all_digits(s: Seq<u8>) -> bool {
    forall|i: int| 0 <= i < s.len() ==> is_digit(#[trigger] s[i])
}

/// The non-negative value of a run of decimal digit bytes.
pub open spec fn digits_val(s: Seq<u8>) -> int
    decreases s.len(),
{
    if s.len() == 0 {
        0
    } else {
        digits_val(s.drop_last()) * 10 + (s.last() - 48)
    }
}

pub open spec fn in_i32_range(v: int) -> bool {
    i32::MIN <= v && v <= i32::MAX
}

/// What a record field must look like: an optional sign followed by at
/// least one digit, with a value representable as an `i32`.
pub open spec fn is_int_literal(s: Seq<u8>) -> bool {
    if s.len() == 0 {
        false
    } else if s[0] == 43 || s[0] == 45 {
        s.len() >= 2 && all_digits(s.subrange(1, s.len() as int)) && in_i32_range(
            int_literal_val(s),
        )
    } else {
        all_digits(s) && in_i32_range(int_literal_val(s))
    }
}

pub open spec fn int_literal_val(s: Seq<u8>) -> int {
    if s.len() == 0 {
        0
    } else if s[0] == 45 {
        -digits_val(s.subrange(1, s.len() as int))
    } else if s[0] == 43 {
        digits_val(s.subrange(1, s.len() as int))
    } else {
        digits_val(s)
    }
}

/// A well-formed record line split at position `k`: exactly one comma,
/// standing at `k`, with an integer literal on either side.
pub open spec fn valid_split_at(s: Seq<u8>, k: int) -> bool {
    &&& 0 <= k < s.len()
    &&& s[k] == 44
    &&& forall|m: int| 0 <= m < s.len() && m != k ==> #[trigger] s[m] != 44
    &&& is_int_literal(s.subrange(0, k))
    &&& is_int_literal(s.subrange(k + 1, s.len() as int))
}

pub open spec fn line_valid(s: Seq<u8>) -> bool {
    exists|k: int| valid_split_at(s, k)
}

pub open spec fn line_point(s: Seq<u8>) -> Point {
    let k = choose|k: int| valid_split_at(s, k);
    Point {
        x: int_literal_val(s.subrange(0, k)) as i32,
        y: int_literal_val(s.subrange(k + 1, s.len() as int)) as i32,
    }
}

/// Every non-empty line is a well-formed record.
pub open spec fn lines_valid(ls: Seq<Seq<u8>>) -> bool {
    forall|i: int| 0 <= i < ls.len() ==> ((#[trigger] ls[i]).len() == 0 || line_valid(ls[i]))
}

/// The points of the well-formed lines, in input order, empty lines
/// skipped.
pub open spec fn points_of(ls: Seq<Seq<u8>>) -> Seq<Point>
    decreases ls.len(),
{
    if ls.len() == 0 {
        Seq::empty()
    } else if ls.last().len() == 0 {
        points_of(ls.drop_last())
    } else {
        points_of(ls.drop_last()).push(line_point(ls.last()))
    }
}

proof fn lemma_digits_val_nonneg(s: Seq<u8>)
    requires
        all_digits(s),
    ensures
        digits_val(s) >= 0,
    decreases s.len(),
{
    if s.len() > 0 {
        assert(forall|i: int| 0 <= i < s.drop_last().len() ==> s.drop_last()[i] == s[i]);
        lemma_digits_val_nonneg(s.drop_last());
        assert(is_digit(s.last()));
    }
}

proof fn lemma_digits_val_prefix_le(s: Seq<u8>, n: int)
    requires
        all_digits(s),
        0 <= n <= s.len(),
    ensures
        digits_val(s.subrange(0, n)) <= digits_val(s),
    decreases s.len() - n,
{
    if n == s.len() {
        assert(s.subrange(0, n) =~= s);
    } else {
        let a = s.subrange(0, n);
        let b = s.subrange(0, n + 1);
        assert(b.drop_last() =~= a);
        assert(b.last() == s[n]);
        assert(forall|i: int| 0 <= i < a.len() ==> a[i] == s[i]);
        lemma_digits_val_nonneg(a);
        assert(digits_val(b) == digits_val(a) * 10 + (s[n] - 48));
        assert(digits_val(a) * 10 >= digits_val(a));
        assert(is_digit(s[n]));
        lemma_digits_val_prefix_le(s, n + 1);
    }
}

/// Parse the byte range `[start, end)` as a signed decimal `i32`, exactly
/// the records the loader accepts: `None` iff the range is not an integer
/// literal in range.
#[verifier::loop_isolation(false)]
fn parse_i32_range(s: &Vec<u8>, start: usize, end: usize) -> (r: Option<i32>)
    requires
        start <= end <= s@.len(),
    ensures
        ({
            let seg = s@.subrange(start as int, end as int);
            match r {
                Some(v) => is_int_literal(seg) && v as int == int_literal_val(seg),
                None => !is_int_literal(seg),
            }
        }),
{
    let ghost seg = s@.subrange(start as int, end as int);
    if start == end {
        return None;
    }
    let first = s[start];
    let signed = first == 45 || first == 43;
    let neg = first == 45;
    let digits_start = if signed {
        start + 1
    } else {
        start
    };
    let ghost digits = s@.subrange(digits_start as int, end as int);
    proof {
        if signed {
            assert(seg.subrange(1, seg.len() as int) =~= digits);
        } else {
            assert(seg =~= digits);
        }
        assert(seg[0] == first);
    }
    if digits_start == end {
        return None;
    }
    let mut acc: i64 = 0;
    let mut j: usize = digits_start;
    while j < end
        invariant
            digits_start <= j <= end <= s@.len(),
            digits == s@.subrange(digits_start as int, end as int),
            all_digits(s@.subrange(digits_start as int, j as int)),
            0 <= acc <= 0x80000000i64,
            acc as int == digits_val(s@.subrange(digits_start as int, j as int)),
        decreases end - j,
    {
        let c = s[j];
        if c < 48 || c > 57 {
            proof {
                assert(digits[j - digits_start] == c);
                assert(!all_digits(digits));
            }
            return None;
        }
        proof {
            let a = s@.subrange(digits_start as int, j as int);
            let b = s@.subrange(digits_start as int, j + 1 as int);
            assert(b.drop_last() =~= a);
            assert(b.last() == c);
        }
        acc = acc * 10 + ((c - 48) as i64);
        if acc > 0x80000000i64 {
            proof {
                let b = s@.subrange(digits_start as int, j + 1 as int);
                assert(b =~= digits.subrange(0, j + 1 - digits_start));
                if all_digits(digits) {
                    lemma_digits_val_prefix_le(digits, j + 1 - digits_start);
                    assert(digits_val(digits) > 0x80000000);
                    assert(!in_i32_range(int_literal_val(seg)));
                }
            }
            return None;
        }
        j += 1;
    }
    proof {
        assert(s@.subrange(digits_start as int, end as int) =~= digits);
        assert(acc as int == digits_val(digits));
        lemma_digits_val_nonneg(digits);
    }
    if neg {
        proof {
            assert(int_literal_val(seg) == -digits_val(digits));
            assert(is_int_literal(seg));
        }
        Some((-acc) as i32)
    } else {
        if acc > 0x7fffffffi64 {
            proof {
                assert(int_literal_val(seg) == digits_val(digits));
                assert(!in_i32_range(int_literal_val(seg)));
            }
            return None;
        }
        proof {
            assert(int_literal_val(seg) == digits_val(digits));
            assert(is_int_literal(seg));
        }
        Some(acc as i32)
    }
}

/// Parse the record lines into points: each non-empty line must be exactly
/// two comma-separated integers; empty lines are skipped; any malformed
/// line aborts the whole load with `None` and no points at all.
pub fn parse_points(lines: &Vec<Vec<u8>>) -> (r: Option<Vec<Point>>)
    ensures
        r.is_some() <==> lines_valid(lines.deep_view()),
        r matches Some(pts) ==> pts@ == points_of(lines.deep_view()),
{
    let ghost ld = lines.deep_view();
    let mut points: Vec<Point> = Vec::new();
    let mut i: usize = 0;
    while i < lines.len()
        invariant
            0 <= i <= lines@.len(),
            ld == lines.deep_view(),
            ld.len() == lines@.len(),
            forall|t: int| 0 <= t < ld.len() ==> ld[t] == lines@[t]@,
            points@ == points_of(ld.subrange(0, i as int)),
            forall|t: int| 0 <= t < i ==> ((#[trigger] ld[t]).len() == 0 || line_valid(ld[t])),
        decreases lines@.len() - i,
    {
        let line = &lines[i];
        let ghost lv = ld[i as int];
        proof {
            assert(lv == line@);
            assert(ld.subrange(0, i + 1 as int).drop_last() =~= ld.subrange(0, i as int));
            assert(ld.subrange(0, i + 1 as int).last() == lv);
        }
        if line.len() > 0 {
            let mut comma_idx: usize = 0;
            let mut comma_count: usize = 0;
            let ghost mut second: int = 0;
            let mut j: usize = 0;
            while j < line.len()
                invariant
                    0 <= j <= line@.len(),
                    lv == line@,
                    comma_count == 0 ==> forall|t: int| 0 <= t < j ==> #[trigger] lv[t] != 44,
                    comma_count >= 1 ==> 0 <= comma_idx < j && lv[comma_idx as int] == 44,
                    comma_count == 1 ==> forall|t: int|
                        0 <= t < j && t != comma_idx ==> #[trigger] lv[t] != 44,
                    comma_count >= 2 ==> comma_idx < second < j && lv[second] == 44,
                    comma_count <= j,
                decreases line@.len() - j,
            {
                if line[j] == 44 {
                    if comma_count == 0 {
                        comma_idx = j;
                    } else if comma_count == 1 {
                        proof {
                            second = j as int;
                        }
                    }
                    comma_count += 1;
                }
                j += 1;
            }
            if comma_count != 1 {
                proof {
                    assert forall|k: int| !valid_split_at(lv, k) by {
                        if 0 <= k < lv.len() && lv[k] == 44 {
                            if comma_count == 0 {
                            } else {
                                assert(comma_count >= 2);
                                if k != comma_idx {
                                    assert(lv[comma_idx as int] == 44);
                                } else {
                                    assert(lv[second] == 44 && second != k);
                                }
                            }
                        }
                    }
                    assert(!line_valid(lv));
                    assert(lv.len() > 0);
                    assert(!lines_valid(ld));
                }
                return None;
            }
            let x_parsed = parse_i32_range(line, 0, comma_idx);
            let y_parsed = parse_i32_range(line, comma_idx + 1, line.len());
            proof {
                assert(lv.subrange(0, comma_idx as int) == line@.subrange(0, comma_idx as int));
                assert(lv.subrange(comma_idx + 1, lv.len() as int) == line@.subrange(
                    comma_idx + 1,
                    line@.len() as int,
                ));
                assert forall|k: int| valid_split_at(lv, k) implies k == comma_idx by {
                    if k != comma_idx {
                        assert(lv[comma_idx as int] == 44);
                    }
                }
            }
            match (x_parsed, y_parsed) {
                (Some(x), Some(y)) => {
                    proof {
                        assert(valid_split_at(lv, comma_idx as int));
                        assert(line_valid(lv));
                        let k = choose|k: int| valid_split_at(lv, k);
                        assert(k == comma_idx);
                        assert(line_point(lv) == Point { x, y });
                        assert(points_of(ld.subrange(0, i + 1 as int)) == points_of(
                            ld.subrange(0, i as int),
                        ).push(Point { x, y }));
                    }
                    points.push(Point { x, y });
                },
                _ => {
                    proof {
                        assert forall|k: int| !valid_split_at(lv, k) by {
                            if valid_split_at(lv, k) {
                                assert(k == comma_idx);
                            }
                        }
                        assert(!line_valid(lv));
                        assert(!lines_valid(ld));
                    }
                    return None;
                },
            }
        }
        i += 1;
    }
    proof {
        assert(ld.subrange(0, ld.len() as int) =~= ld);
    }
    Some(points)
}

} // verus!
