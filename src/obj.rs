use vstd::prelude::*;

verus! {

/// The 1-based position, texture-coordinate and normal indices of one corner
/// of a face.
#[derive(Clone, Copy, PartialEq, Eq, Structural, Debug)]
pub struct FacePoint {
    pub vindex: usize,
    pub tindex: usize,
    pub nindex: usize,
}

/// A triangular face: three corners.
#[derive(Clone, Copy, PartialEq, Eq, Structural, Debug)]
pub struct Face(pub FacePoint, pub FacePoint, pub FacePoint);

/// Item `index` of `items`, counting from 1; `None` when the index is out of
/// range.
pub fn one_based<T: Copy>(items: &Vec<T>, index: usize) -> (r: Option<T>)
    ensures
        r is Some <==> 1 <= index <= items.len(),
        r matches Some(item) ==> item == items@[index - 1],
{
    if index >= 1 && index <= items.len() {
        Some(items[index - 1])
    } else {
        None
    }
}

/// An ASCII decimal digit.
pub open spec fn is_digit(b: u8) -> bool {
    48 <= b <= 57
}

pub open spec fn all_digits(s: Seq<u8>) -> bool {
    forall|i: int| 0 <= i < s.len() ==> is_digit(#[trigger] s[i])
}

/// The number written by the decimal digits `s`, most significant first.
pub open spec fn decimal_value(s: Seq<u8>) -> int
    decreases s.len(),
{
    if s.len() == 0 {
        0
    } else {
        decimal_value(s.drop_last()) * 10 + (s.last() - 48)
    }
}

proof fn lemma_decimal_prefix(s: Seq<u8>, j: int)
    requires
        all_digits(s),
        0 <= j <= s.len(),
    ensures
        0 <= decimal_value(s.take(j)) <= decimal_value(s),
    decreases s.len() - j,
{
    if j < s.len() {
        lemma_decimal_prefix(s, j + 1);
        assert(s.take(j + 1).drop_last() =~= s.take(j));
        assert(is_digit(s[j]));
    } else {
        assert(s.take(j) =~= s);
        lemma_decimal_nonneg(s);
    }
}

proof fn lemma_decimal_nonneg(s: Seq<u8>)
    requires
        all_digits(s),
    ensures
        decimal_value(s) >= 0,
    decreases s.len(),
{
    if s.len() > 0 {
        assert(all_digits(s.drop_last()));
        assert(is_digit(s[s.len() - 1]));
        lemma_decimal_nonneg(s.drop_last());
    }
}

/// An index field of a face record: decimal digits only.  `None` for an
/// empty field, a non-digit, or a value that does not fit in `usize`.
pub fn parse_index(field: &[u8]) -> (r: Option<usize>)
    ensures
        r is Some <==> field@.len() > 0 && all_digits(field@) && decimal_value(field@) <= usize::MAX,
        r matches Some(n) ==> n == decimal_value(field@),
{
    let n = field.len();
    if n == 0 {
        return None;
    }
    let mut acc: usize = 0;
    let mut i: usize = 0;
    while i < n
        invariant
            n == field@.len(),
            0 <= i <= n,
            all_digits(field@.take(i as int)),
            acc == decimal_value(field@.take(i as int)),
        decreases n - i,
    {
        let b = field[i];
        if b < 48 || b > 57 {
            assert(!is_digit(field@[i as int]));
            return None;
        }
        assert(field@.take(i + 1).drop_last() =~= field@.take(i as int));
        assert(all_digits(field@.take(i + 1)));
        let next = match acc.checked_mul(10) {
            Some(t) => t.checked_add((b - 48) as usize),
            None => None,
        };
        match next {
            Some(v) => {
                acc = v;
            },
            None => {
                proof {
                    if all_digits(field@) {
                        lemma_decimal_prefix(field@, i + 1);
                    }
                }
                return None;
            },
        }
        i = i + 1;
    }
    assert(field@.take(n as int) =~= field@);
    Some(acc)
}

/// The fields of `s` between `/` separators; a separator at either end, or
/// two in a row, make an empty field.
pub open spec fn slash_fields(s: Seq<u8>) -> Seq<Seq<u8>>
    decreases s.len(),
{
    if s.len() == 0 {
        seq![Seq::empty()]
    } else {
        let f = slash_fields(s.drop_last());
        if s.last() == 47 {
            f.push(Seq::empty())
        } else {
            f.update(f.len() - 1, f.last().push(s.last()))
        }
    }
}

/// A well-formed index field.
pub open spec fn valid_index(f: Seq<u8>) -> bool {
    f.len() > 0 && all_digits(f) && decimal_value(f) <= usize::MAX
}

/// A corner of a face record, `v/t/n`: at least three `/`-separated index
/// fields, every one of them well formed; the first three give the position,
/// texture-coordinate and normal indices.
pub fn parse_face_point(corner: &[u8]) -> (r: Option<FacePoint>)
    ensures
        r is Some <==> slash_fields(corner@).len() >= 3 && forall|j: int|
            0 <= j < slash_fields(corner@).len() ==> valid_index(#[trigger] slash_fields(corner@)[j]),
        r matches Some(fp) ==> {
            &&& fp.vindex == decimal_value(slash_fields(corner@)[0])
            &&& fp.tindex == decimal_value(slash_fields(corner@)[1])
            &&& fp.nindex == decimal_value(slash_fields(corner@)[2])
        },
{
    let n = corner.len();
    let mut ok = true;
    let mut k: usize = 0;
    let mut start: usize = 0;
    let mut vals: [usize; 3] = [0, 0, 0];
    let mut i: usize = 0;
    proof {
        assert(corner@.take(0) =~= Seq::<u8>::empty());
        assert(corner@.subrange(0, 0) =~= Seq::<u8>::empty());
    }
    while i < n
        invariant
            n == corner@.len(),
            0 <= start <= i <= n,
            k <= i,
            slash_fields(corner@.take(i as int)).len() == k + 1,
            slash_fields(corner@.take(i as int))[k as int] == corner@.subrange(start as int, i as int),
            ok == forall|j: int|
                0 <= j < k ==> valid_index(#[trigger] slash_fields(corner@.take(i as int))[j]),
            forall|j: int|
                0 <= j < k && j < 3 && valid_index(slash_fields(corner@.take(i as int))[j]) ==> vals[j]
                    == decimal_value(#[trigger] slash_fields(corner@.take(i as int))[j]),
        decreases n - i,
    {
        let ghost before = slash_fields(corner@.take(i as int));
        assert(corner@.take(i + 1).drop_last() =~= corner@.take(i as int));
        let ghost ok_prev = ok;
        if corner[i] == 47 {
            let field = parse_index(&corner[start..i]);
            match field {
                Some(v) => {
                    if k < 3 {
                        vals[k] = v;
                    }
                },
                None => {
                    ok = false;
                },
            }
            let ghost ok_before = ok_prev;
            k = k + 1;
            start = i + 1;
            proof {
                let after = slash_fields(corner@.take(i + 1));
                assert(corner@.subrange(start as int, i + 1) =~= Seq::<u8>::empty());
                assert forall|j: int| 0 <= j < k implies #[trigger] after[j] == before[j] by {}
                if ok {
                    assert forall|j: int| 0 <= j < k implies valid_index(#[trigger] after[j]) by {
                        assert(after[j] == before[j]);
                    }
                } else if !ok_before {
                    let j = choose|j: int| 0 <= j < k - 1 && !valid_index(#[trigger] before[j]);
                    assert(after[j] == before[j]);
                } else {
                    assert(after[k - 1] == before[k - 1]);
                }
            }
        } else {
            proof {
                assert(corner@.subrange(start as int, i + 1) =~= corner@.subrange(start as int, i as int).push(
                    corner@[i as int],
                ));
                let after = slash_fields(corner@.take(i + 1));
                assert forall|j: int| 0 <= j < k implies #[trigger] after[j] == before[j] by {}
                if ok {
                    assert forall|j: int| 0 <= j < k implies valid_index(#[trigger] after[j]) by {
                        assert(after[j] == before[j]);
                    }
                } else {
                    let j = choose|j: int| 0 <= j < k && !valid_index(#[trigger] before[j]);
                    assert(after[j] == before[j]);
                }
            }
        }
        i = i + 1;
    }
    let last = parse_index(&corner[start..n]);
    assert(corner@.take(n as int) =~= corner@);
    match last {
        Some(v) => {
            if k < 3 {
                vals[k] = v;
            }
        },
        None => {
            ok = false;
        },
    }
    if ok && k >= 2 {
        Some(FacePoint { vindex: vals[0], tindex: vals[1], nindex: vals[2] })
    } else {
        None
    }
}

} // verus!
