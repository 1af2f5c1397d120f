//! What the `math` module of YARA computes.
//!
//! The functions that return numbers with a fractional part are split in two:
//! what they count and add up is here, as integers.

use vstd::prelude::*;
use vstd::slice::*;

verus! {

/// Returns the lesser of two integers.
pub fn min(a: i64, b: i64) -> (least: i64)
    ensures
        least == (if a <= b {
            a
        } else {
            b
        }),
{
    if a <= b {
        a
    } else {
        b
    }
}

/// Returns the greater of two integers.
pub fn max(a: i64, b: i64) -> (greatest: i64)
    ensures
        greatest == (if a >= b {
            a
        } else {
            b
        }),
{
    if a >= b {
        a
    } else {
        b
    }
}

/// Returns the absolute value of an integer. The lowest one has none.
pub fn abs(x: i64) -> (magnitude: i64)
    requires
        x != i64::MIN,
    ensures
        magnitude == (if x < 0 {
            -x
        } else {
            x as int
        }),
{
    if x < 0 {
        -x
    } else {
        x
    }
}

/// Tells whether `x` is between two bounds, both of which are included.
pub fn in_range(x: i64, min: i64, max: i64) -> (yes: bool)
    ensures
        yes == (min <= x <= max),
{
    min <= x && x <= max
}

/// The end of a part of some data that starts at an offset: if it would be
/// beyond the highest address, it is there.
pub open spec fn end_of(start: usize, length: usize) -> int {
    if start + length > usize::MAX {
        usize::MAX as int
    } else {
        start + length
    }
}

/// Returns the `length` bytes that start at an offset, or `None` if the data
/// has not so many. Negative numbers stand for the large ones with the same
/// bits.
pub fn data_range(data: &[u8], offset: i64, length: i64) -> (part: Option<&[u8]>)
    ensures
        match part {
            Some(part) => {
                &&& offset as usize <= end_of(offset as usize, length as usize) <= data@.len()
                &&& part@ == data@.subrange(
                    (offset as usize) as int,
                    end_of(offset as usize, length as usize),
                )
            },
            None => end_of(offset as usize, length as usize) > data@.len(),
        },
{
    let start = #[verifier::truncate] (offset as usize);
    let end = start.saturating_add(#[verifier::truncate] (length as usize));
    if end <= data.len() {
        Some(slice_subrange(data, start, end))
    } else {
        None
    }
}

/// Where addresses have 64 bits, and with data no longer than a slice can be, the
/// part is there if and only if neither the offset nor the length is negative
/// and it ends within the data. It then has as many bytes as the length says.
pub proof fn lemma_data_range(len: nat, offset: i64, length: i64)
    requires
        usize::BITS == 64,
        len <= isize::MAX,
    ensures
        end_of(offset as usize, length as usize) <= len <==> 0 <= offset && 0 <= length && offset
            + length <= len,
        end_of(offset as usize, length as usize) <= len ==> offset as usize == offset && end_of(
            offset as usize,
            length as usize,
        ) == offset + length,
{
    assert(offset < 0 && usize::BITS == 64 ==> offset as usize >= 0x8000_0000_0000_0000)
        by (bit_vector);
    assert(length < 0 && usize::BITS == 64 ==> length as usize >= 0x8000_0000_0000_0000)
        by (bit_vector);
}

/// How many times a byte occurs in some data.
pub open spec fn count_of(data: Seq<u8>, byte: int) -> nat
    decreases data.len(),
{
    if data.len() == 0 {
        0
    } else {
        count_of(data.drop_last(), byte) + if data.last() == byte {
            1nat
        } else {
            0nat
        }
    }
}

proof fn lemma_count_of(data: Seq<u8>, byte: int)
    ensures
        count_of(data, byte) <= data.len(),
    decreases data.len(),
{
    if data.len() > 0 {
        lemma_count_of(data.drop_last(), byte);
    }
}

/// A byte occurs in data that is followed by other data as many times as in both.
pub proof fn law_counts_joined(a: Seq<u8>, b: Seq<u8>, byte: int)
    ensures
        count_of(a + b, byte) == count_of(a, byte) + count_of(b, byte),
    decreases b.len(),
{
    if b.len() == 0 {
        assert(a + b =~= a);
    } else {
        law_counts_joined(a, b.drop_last(), byte);
        assert((a + b).drop_last() =~= a + b.drop_last());
    }
}

/// A byte occurs once in data that is nothing but this byte, and no other one
/// does.
pub proof fn law_count_of_one(only: u8, byte: int)
    ensures
        count_of(seq![only], byte) == if only == byte {
            1nat
        } else {
            0nat
        },
{
    assert(seq![only].drop_last() =~= Seq::empty());
    assert(count_of(seq![only].drop_last(), byte) == 0);
}

/// Returns how many times each byte occurs in some data, or `None` if there is
/// no data.
pub fn distribution(data: &[u8]) -> (counts: Option<Vec<u64>>)
    ensures
        match counts {
            Some(counts) => {
                &&& data@.len() > 0
                &&& counts@.len() == 256
                &&& forall|byte: int|
                    0 <= byte < 256 ==> #[trigger] counts@[byte] == count_of(data@, byte)
            },
            None => data@.len() == 0,
        },
{
    if data.len() == 0 {
        return None;
    }
    let mut counts: Vec<u64> = Vec::new();
    counts.resize(256, 0);
    let mut i: usize = 0;
    assert(data@.take(0) =~= Seq::empty());
    while i < data.len()
        invariant
            i <= data@.len(),
            counts@.len() == 256,
            forall|byte: int|
                0 <= byte < 256 ==> #[trigger] counts@[byte] == count_of(
                    data@.take(i as int),
                    byte,
                ),
        decreases data@.len() - i,
    {
        let byte = data[i] as usize;
        let ghost before = counts@;
        proof {
            lemma_count_of(data@.take(i as int), byte as int);
            assert(data@.take(i + 1).drop_last() =~= data@.take(i as int));
        }
        let count = counts[byte];
        counts.set(byte, count + 1);
        i += 1;
        assert forall|other: int| 0 <= other < 256 implies #[trigger] counts@[other] == count_of(
            data@.take(i as int),
            other,
        ) by {
            assert(before[other] == count_of(data@.take(i - 1), other));
        }
    }
    assert(data@.take(data@.len() as int) =~= data@);
    Some(counts)
}

/// Returns how many times each byte occurs in the `length` bytes of some data
/// that start at an offset. Returns `None` if the data has not so many, or if
/// there are none.
///
/// Where addresses have 64 bits, and with data no longer than a slice can be, the
/// counts are there if and only if the offset is not negative, the length is
/// positive and the part ends within the data.
pub fn distribution_data(data: &[u8], offset: i64, length: i64) -> (counts: Option<Vec<u64>>)
    ensures
        match counts {
            Some(counts) => {
                let end = end_of(offset as usize, length as usize);
                &&& (offset as usize) < end <= data@.len()
                &&& counts@.len() == 256
                &&& forall|byte: int|
                    0 <= byte < 256 ==> #[trigger] counts@[byte] == count_of(
                        data@.subrange((offset as usize) as int, end),
                        byte,
                    )
            },
            None => {
                let end = end_of(offset as usize, length as usize);
                end > data@.len() || end == offset as usize
            },
        },
        usize::BITS == 64 && data@.len() <= isize::MAX ==> match counts {
            Some(counts) => {
                &&& 0 <= offset
                &&& 0 < length
                &&& offset + length <= data@.len()
                &&& forall|byte: int|
                    0 <= byte < 256 ==> #[trigger] counts@[byte] == count_of(
                        data@.subrange(offset as int, offset + length),
                        byte,
                    )
            },
            None => !(0 <= offset && 0 < length && offset + length <= data@.len()),
        },
{
    proof {
        if usize::BITS == 64 && data@.len() <= isize::MAX {
            lemma_data_range(data@.len(), offset, length);
        }
    }
    match data_range(data, offset, length) {
        Some(part) => distribution(part),
        None => None,
    }
}

/// How many bytes of some data are below a bound.
pub open spec fn count_below(data: Seq<u8>, bound: nat) -> nat
    decreases bound,
{
    if bound == 0 {
        0
    } else {
        count_below(data, (bound - 1) as nat) + count_of(data, bound - 1)
    }
}

/// The sum of the bytes of some data that are below a bound, from their counts.
pub open spec fn sum_below(data: Seq<u8>, bound: nat) -> nat
    decreases bound,
{
    if bound == 0 {
        0
    } else {
        sum_below(data, (bound - 1) as nat) + ((bound - 1) as nat) * count_of(data, bound - 1)
    }
}

/// The sum of the bytes of some data.
pub open spec fn total(data: Seq<u8>) -> nat
    decreases data.len(),
{
    if data.len() == 0 {
        0
    } else {
        total(data.drop_last()) + data.last() as nat
    }
}

proof fn lemma_one_more(data: Seq<u8>, bound: nat)
    requires
        data.len() > 0,
    ensures
        data.last() < bound ==> {
            &&& count_below(data, bound) == count_below(data.drop_last(), bound) + 1
            &&& sum_below(data, bound) == sum_below(data.drop_last(), bound) + data.last()
        },
        data.last() >= bound ==> {
            &&& count_below(data, bound) == count_below(data.drop_last(), bound)
            &&& sum_below(data, bound) == sum_below(data.drop_last(), bound)
        },
    decreases bound,
{
    if bound > 0 {
        lemma_one_more(data, (bound - 1) as nat);
        let byte = (bound - 1) as nat;
        let before = count_of(data.drop_last(), byte as int);
        assert(byte * (before + 1) == byte * before + byte) by (nonlinear_arith);
        assert(byte * (before + 0) == byte * before);
    }
}

/// The counts of a distribution add up to the length of the data, and the bytes
/// times their counts add up to the sum of the data.
pub proof fn lemma_distribution(data: Seq<u8>)
    ensures
        count_below(data, 256) == data.len(),
        sum_below(data, 256) == total(data),
    decreases data.len(),
{
    if data.len() > 0 {
        lemma_distribution(data.drop_last());
        lemma_one_more(data, 256);
    } else {
        assert(data =~= Seq::empty());
        lemma_no_data(256);
    }
}

proof fn lemma_no_data(bound: nat)
    ensures
        count_below(Seq::empty(), bound) == 0,
        sum_below(Seq::empty(), bound) == 0,
    decreases bound,
{
    if bound > 0 {
        lemma_no_data((bound - 1) as nat);
        assert(((bound - 1) as nat) * 0 == 0) by (nonlinear_arith);
    }
}

/// The sum of the squares of the bytes of some data.
pub open spec fn squares(data: Seq<u8>) -> nat
    decreases data.len(),
{
    if data.len() == 0 {
        0
    } else {
        squares(data.drop_last()) + data.last() as nat * data.last() as nat
    }
}

/// The sum of the products of each byte of some data and the one after it.
pub open spec fn products(data: Seq<u8>) -> nat
    decreases data.len(),
{
    if data.len() < 2 {
        0
    } else {
        products(data.drop_last()) + data[data.len() - 2] as nat * data.last() as nat
    }
}

/// The sum of the products of each byte of some data and the one after it, where
/// the first one comes after the last one: the bytes are a ring.
pub open spec fn ring_products(data: Seq<u8>) -> nat {
    products(data) + if data.len() == 0 {
        0
    } else {
        data[0] as nat * data.last() as nat
    }
}

/// The sums of some data followed by other data. Where the two meet there is one
/// more product.
pub proof fn lemma_sums(a: Seq<u8>, b: Seq<u8>)
    ensures
        total(a + b) == total(a) + total(b),
        squares(a + b) == squares(a) + squares(b),
        products(a + b) == products(a) + products(b) + if a.len() > 0 && b.len() > 0 {
            a.last() as nat * b[0] as nat
        } else {
            0
        },
    decreases b.len(),
{
    if b.len() == 0 {
        assert(a + b =~= a);
    } else {
        lemma_sums(a, b.drop_last());
        assert((a + b).drop_last() =~= a + b.drop_last());
        assert((a + b).last() == b.last());
        if b.len() == 1 {
            assert(b.drop_last() =~= Seq::empty());
        } else {
            assert((a + b)[(a + b).len() - 2] == b[b.len() - 2]);
        }
    }
}

/// The sums of one byte: it comes after itself.
pub proof fn law_sums_of_one(byte: u8)
    ensures
        total(seq![byte]) == byte,
        squares(seq![byte]) == byte * byte,
        products(seq![byte]) == 0,
        ring_products(seq![byte]) == byte * byte,
{
    assert(seq![byte].drop_last() =~= Seq::empty());
    assert(total(seq![byte].drop_last()) == 0);
    assert(squares(seq![byte].drop_last()) == 0);
}

/// The sums of two bytes: each of them comes after the other one.
pub proof fn law_sums_of_two(a: u8, b: u8)
    ensures
        total(seq![a, b]) == a + b,
        squares(seq![a, b]) == a * a + b * b,
        products(seq![a, b]) == a * b,
        ring_products(seq![a, b]) == 2 * (a * b),
{
    lemma_sums(seq![a], seq![b]);
    law_sums_of_one(a);
    law_sums_of_one(b);
    assert(seq![a] + seq![b] =~= seq![a, b]);
}

/// The sums are the same when the data is rotated by any number of places.
pub proof fn lemma_rotated(data: Seq<u8>, n: int)
    requires
        0 <= n <= data.len(),
    ensures
        ring_products(data.skip(n) + data.take(n)) == ring_products(data),
        total(data.skip(n) + data.take(n)) == total(data),
        squares(data.skip(n) + data.take(n)) == squares(data),
{
    let a = data.take(n);
    let b = data.skip(n);
    assert(a + b =~= data);
    lemma_sums(a, b);
    lemma_sums(b, a);
    if n == 0 {
        assert(b + a =~= data);
    } else if n == data.len() {
        assert(b + a =~= data);
    } else {
        let (x, y) = (b.last() as nat, a[0] as nat);
        assert(x * y == y * x) by (nonlinear_arith);
        let (x, y) = (a.last() as nat, b[0] as nat);
        assert(x * y == y * x) by (nonlinear_arith);
        assert((b + a)[0] == b[0] && (b + a).last() == a.last());
        assert(data[0] == a[0] && data.last() == b.last());
    }
}

/// The sums are the same when the data is reversed.
pub proof fn lemma_reversed(data: Seq<u8>)
    ensures
        ring_products(data.reverse()) == ring_products(data),
        total(data.reverse()) == total(data),
        squares(data.reverse()) == squares(data),
{
    lemma_reversed_sums(data);
    if data.len() > 0 {
        let (x, y) = (data[0] as nat, data.last() as nat);
        assert(x * y == y * x) by (nonlinear_arith);
        assert(data.reverse()[0] == data.last() && data.reverse().last() == data[0]);
    }
}

proof fn lemma_reversed_sums(data: Seq<u8>)
    ensures
        products(data.reverse()) == products(data),
        total(data.reverse()) == total(data),
        squares(data.reverse()) == squares(data),
    decreases data.len(),
{
    if data.len() == 0 {
        assert(data.reverse() =~= data);
    } else {
        let others = data.drop_last();
        let last = seq![data.last()];
        lemma_reversed_sums(others);
        lemma_sums(last, others.reverse());
        lemma_sums(others, last);
        assert(data.reverse() =~= last + others.reverse());
        assert(data =~= others + last);
        assert(last.reverse() =~= last);
        if others.len() > 0 {
            let (x, y) = (data.last() as nat, others.last() as nat);
            assert(x * y == y * x) by (nonlinear_arith);
            assert(others.reverse()[0] == others.last());
        }
    }
}

/// The sums that the serial correlation of some data is computed from.
#[derive(Clone, Copy, Debug, PartialEq, Eq, Structural)]
pub struct CorrelationSums {
    /// The sum of the products of each byte and the one after it; the first
    /// one comes after the last one.
    pub products: u128,
    /// The sum of the bytes.
    pub total: u128,
    /// The sum of the squares of the bytes.
    pub squares: u128,
}

/// Returns the sums that the serial correlation of some data is computed from.
pub fn correlation_sums(data: &[u8]) -> (sums: CorrelationSums)
    ensures
        sums.products == ring_products(data@),
        sums.total == total(data@),
        sums.squares == squares(data@),
{
    let mut sums = CorrelationSums { products: 0, total: 0, squares: 0 };
    let mut i: usize = 0;
    assert(data@.take(0) =~= Seq::empty());
    while i < data.len()
        invariant
            i <= data@.len(),
            sums.products == products(data@.take(i as int)),
            sums.total == total(data@.take(i as int)),
            sums.squares == squares(data@.take(i as int)),
            sums.products <= i * 65025,
            sums.total <= i * 255,
            sums.squares <= i * 65025,
        decreases data@.len() - i,
    {
        let byte = data[i] as u128;
        proof {
            assert(data@.take(i + 1).drop_last() =~= data@.take(i as int));
            assert(0 <= byte * byte <= 65025) by (nonlinear_arith)
                requires
                    0 <= byte <= 255,
            ;
        }
        if i > 0 {
            let previous = data[i - 1] as u128;
            assert(0 <= previous * byte <= 65025) by (nonlinear_arith)
                requires
                    0 <= byte <= 255,
                    0 <= previous <= 255,
            ;
            sums.products = sums.products + previous * byte;
        }
        sums.total = sums.total + byte;
        sums.squares = sums.squares + byte * byte;
        i += 1;
    }
    assert(data@.take(data@.len() as int) =~= data@);
    if data.len() > 0 {
        let first = data[0] as u128;
        let last = data[data.len() - 1] as u128;
        assert(0 <= first * last <= 65025) by (nonlinear_arith)
            requires
                0 <= first <= 255,
                0 <= last <= 255,
        ;
        sums.products = sums.products + first * last;
    }
    sums
}

/// The number that three bytes stand for, the first one being the most
/// significant.
pub open spec fn coordinate(data: Seq<u8>, at: int) -> int {
    (data[at] * 256 + data[at + 1]) * 256 + data[at + 2]
}

/// The point that six bytes stand for is inside the circle around the origin
/// that goes through the largest coordinate.
pub open spec fn in_circle(data: Seq<u8>, at: int) -> bool {
    coordinate(data, at) * coordinate(data, at) + coordinate(data, at + 3) * coordinate(
        data,
        at + 3,
    ) < 0xffffff * 0xffffff
}

/// How many of the first `n` points of some data are inside the circle.
pub open spec fn inside(data: Seq<u8>, n: nat) -> nat
    decreases n,
{
    if n == 0 {
        0
    } else {
        inside(data, (n - 1) as nat) + if in_circle(data, (n - 1) * 6) {
            1nat
        } else {
            0nat
        }
    }
}

/// The points that some data stands for.
#[derive(Clone, Copy, Debug, PartialEq, Eq, Structural)]
pub struct Points {
    /// How many of them are inside the circle.
    pub inside: usize,
    /// How many there are.
    pub total: usize,
}

/// Returns the coordinate that three bytes stand for.
fn read_coordinate(data: &[u8], at: usize) -> (n: u64)
    requires
        at + 3 <= data@.len(),
    ensures
        n == coordinate(data@, at as int),
        n <= 0xffffff,
{
    (data[at] as u64 * 256 + data[at + 1] as u64) * 256 + data[at + 2] as u64
}

/// Takes some data as points, six bytes each, and returns how many there are
/// and how many of them are inside the circle. Bytes that are left over are
/// ignored.
pub fn monte_carlo_points(data: &[u8]) -> (points: Points)
    ensures
        points.total == data@.len() / 6,
        points.inside == inside(data@, data@.len() / 6),
{
    let len = data.len();
    let n: usize = len / 6;
    let mut points = Points { inside: 0, total: 0 };
    while points.total < n
        invariant
            n == data@.len() / 6,
            n * 6 <= data@.len() <= usize::MAX,
            points.total <= n,
            points.inside == inside(data@, points.total as nat),
            points.inside <= points.total,
        decreases n - points.total,
    {
        let at: usize = points.total * 6;
        let x = read_coordinate(data, at);
        let y = read_coordinate(data, at + 3);
        assert(0 <= x * x <= 0xffffff * 0xffffff && 0 <= y * y <= 0xffffff * 0xffffff)
            by (nonlinear_arith)
            requires
                0 <= x <= 0xffffff,
                0 <= y <= 0xffffff,
        ;
        if x * x + y * y < 0xffffff * 0xffffff {
            points.inside = points.inside + 1;
        }
        points.total = points.total + 1;
    }
    points
}

/// The whole groups of six bytes that some data is made of.
pub open spec fn groups(data: Seq<u8>) -> Seq<Seq<u8>> {
    Seq::new(data.len() / 6, |i: int| data.subrange(i * 6, i * 6 + 6))
}

/// How many of some groups of six bytes are points inside the circle.
spec fn groups_inside(groups: Seq<Seq<u8>>) -> nat
    decreases groups.len(),
{
    if groups.len() == 0 {
        0
    } else {
        groups_inside(groups.drop_last()) + if in_circle(groups.last(), 0) {
            1nat
        } else {
            0nat
        }
    }
}

proof fn lemma_groups_inside(data: Seq<u8>, n: nat)
    requires
        n <= data.len() / 6,
    ensures
        inside(data, n) == groups_inside(groups(data).take(n as int)),
    decreases n,
{
    let first = groups(data).take(n as int);
    if n > 0 {
        lemma_groups_inside(data, (n - 1) as nat);
        assert(first.drop_last() =~= groups(data).take(n - 1));
        assert(first.last() == data.subrange((n - 1) * 6, (n - 1) * 6 + 6));
        assert(coordinate(first.last(), 0) == coordinate(data, (n - 1) * 6));
        assert(coordinate(first.last(), 3) == coordinate(data, (n - 1) * 6 + 3));
    }
}

/// One group less, wherever it is.
proof fn lemma_group_removed(groups: Seq<Seq<u8>>, i: int)
    requires
        0 <= i < groups.len(),
    ensures
        groups_inside(groups) == groups_inside(groups.remove(i)) + if in_circle(groups[i], 0) {
            1nat
        } else {
            0nat
        },
    decreases groups.len(),
{
    if i == groups.len() - 1 {
        assert(groups.remove(i) =~= groups.drop_last());
    } else {
        lemma_group_removed(groups.drop_last(), i);
        assert(groups.remove(i).drop_last() =~= groups.drop_last().remove(i));
        assert(groups.remove(i).last() == groups.last());
    }
}

proof fn lemma_groups_reordered(a: Seq<Seq<u8>>, b: Seq<Seq<u8>>)
    requires
        a.to_multiset() == b.to_multiset(),
    ensures
        a.len() == b.len(),
        groups_inside(a) == groups_inside(b),
    decreases a.len(),
{
    a.to_multiset_ensures();
    b.to_multiset_ensures();
    if a.len() > 0 {
        let n: int = a.len() - 1;
        assert(a.contains(a[n]));
        assert(a.to_multiset().contains(a[n]));
        assert(b.contains(a[n]));
        let i = choose|i: int| 0 <= i < b.len() && b[i] == a[n];
        assert(a.remove(n).to_multiset() =~= b.remove(i).to_multiset());
        lemma_groups_reordered(a.remove(n), b.remove(i));
        lemma_group_removed(a, n);
        lemma_group_removed(b, i);
    }
}

/// The points are the same when whole groups of six bytes change places, in any
/// way, and whatever the bytes that are left over at the end are.
pub proof fn lemma_points_reordered(data: Seq<u8>, other: Seq<u8>)
    requires
        groups(data).to_multiset() == groups(other).to_multiset(),
    ensures
        data.len() / 6 == other.len() / 6,
        inside(data, data.len() / 6) == inside(other, other.len() / 6),
{
    lemma_groups_reordered(groups(data), groups(other));
    lemma_groups_inside(data, data.len() / 6);
    lemma_groups_inside(other, other.len() / 6);
    assert(groups(data).take((data.len() / 6) as int) =~= groups(data));
    assert(groups(other).take((other.len() / 6) as int) =~= groups(other));
}

/// A last group of fewer than six bytes is ignored, and there are no points if
/// and only if it is all there is.
pub proof fn lemma_points_left_over(data: Seq<u8>)
    ensures
        ({
            let whole = data.take(data.len() - data.len() % 6);
            &&& whole.len() / 6 == data.len() / 6
            &&& inside(whole, whole.len() / 6) == inside(data, data.len() / 6)
        }),
        data.len() / 6 == 0 <==> data.len() < 6,
{
    let whole = data.take(data.len() - data.len() % 6);
    assert(groups(whole) =~= groups(data)) by {
        assert forall|i: int| 0 <= i < data.len() / 6 implies #[trigger] groups(whole)[i]
            == groups(data)[i] by {
            assert(whole.subrange(i * 6, i * 6 + 6) =~= data.subrange(i * 6, i * 6 + 6));
        }
    }
    lemma_points_reordered(whole, data);
}

/// Six bytes are one point. Its coordinates are the numbers that the first three
/// and the last three bytes stand for, the most significant byte first. It is
/// inside if the sum of their squares is less than the square of the greatest
/// coordinate.
pub proof fn law_point(a: u8, b: u8, c: u8, d: u8, e: u8, f: u8)
    ensures
        ({
            let x = 65536 * a + 256 * b + c;
            let y = 65536 * d + 256 * e + f;
            inside(seq![a, b, c, d, e, f], 1) == if x * x + y * y < 16777215 * 16777215 {
                1nat
            } else {
                0nat
            }
        }),
{
    let data = seq![a, b, c, d, e, f];
    assert(inside(data, 0) == 0);
    assert(coordinate(data, 0) == 65536 * a + 256 * b + c);
    assert(coordinate(data, 3) == 65536 * d + 256 * e + f);
    assert(inside(data, 1) == inside(data, 0) + if in_circle(data, 0) {
        1nat
    } else {
        0nat
    });
}

/// The points of some data depend on its groups of six bytes only.
proof fn lemma_same_points(data: Seq<u8>, other: Seq<u8>, n: nat)
    requires
        n * 6 <= data.len(),
        n * 6 <= other.len(),
        forall|i: int| 0 <= i < n * 6 ==> #[trigger] data[i] == other[i],
    ensures
        inside(data, n) == inside(other, n),
    decreases n,
{
    if n > 0 {
        let at: int = (n - 1) * 6;
        lemma_same_points(data, other, (n - 1) as nat);
        assert(coordinate(data, at) == coordinate(other, at));
        assert(coordinate(data, at + 3) == coordinate(other, at + 3));
    }
}

/// Data that is followed by other data has the points of both, if it has no bytes
/// left over.
pub proof fn law_points_joined(a: Seq<u8>, b: Seq<u8>, n: nat)
    requires
        a.len() % 6 == 0,
        n <= b.len() / 6,
    ensures
        inside(a + b, a.len() / 6 + n) == inside(a, a.len() / 6) + inside(b, n),
    decreases n,
{
    let m = a.len() / 6;
    let all = a + b;
    if n == 0 {
        lemma_same_points(all, a, m);
    } else {
        let at: int = (n - 1) * 6;
        law_points_joined(a, b, (n - 1) as nat);
        assert((m + n - 1) * 6 == a.len() + at);
        assert(coordinate(all, a.len() + at) == coordinate(b, at));
        assert(coordinate(all, a.len() + at + 3) == coordinate(b, at + 3));
        assert(in_circle(all, (m + n - 1) * 6) == in_circle(b, at));
    }
}

/// The points are the same when the two halves of each group of six bytes are
/// swapped: neither coordinate is more than the other one.
pub proof fn law_points_swapped(data: Seq<u8>, other: Seq<u8>, n: nat)
    requires
        n <= data.len() / 6,
        data.len() == other.len(),
        forall|i: int| 0 <= i < n * 6 && i % 6 < 3 ==> #[trigger] data[i] == other[i + 3],
        forall|i: int| 0 <= i < n * 6 && i % 6 < 3 ==> #[trigger] other[i] == data[i + 3],
    ensures
        inside(data, n) == inside(other, n),
    decreases n,
{
    if n > 0 {
        let at: int = (n - 1) * 6;
        law_points_swapped(data, other, (n - 1) as nat);
        assert(at % 6 == 0 && (at + 1) % 6 == 1 && (at + 2) % 6 == 2);
        assert(data[at] == other[at + 3] && data[at + 1] == other[at + 4] && data[at + 2]
            == other[at + 5]);
        assert(other[at] == data[at + 3] && other[at + 1] == data[at + 4] && other[at + 2]
            == data[at + 5]);
        assert(coordinate(data, at) == coordinate(other, at + 3));
        assert(coordinate(data, at + 3) == coordinate(other, at));
    }
}

/// A point one of whose coordinates is the greatest one is not inside, whatever
/// the other one is.
pub proof fn law_farthest_points(a: u8, b: u8, c: u8)
    ensures
        inside(seq![a, b, c, 0xff, 0xff, 0xff], 1) == 0,
        inside(seq![0xff, 0xff, 0xff, a, b, c], 1) == 0,
{
    law_point(a, b, c, 0xff, 0xff, 0xff);
    law_point(0xff, 0xff, 0xff, a, b, c);
    let x = 65536 * a + 256 * b + c;
    assert(x * x >= 0) by (nonlinear_arith);
}

/// Moving a point away from the origin does not bring it inside.
pub proof fn law_farther_points(near: Seq<u8>, far: Seq<u8>)
    requires
        near.len() == 6,
        far.len() == 6,
        forall|i: int| 0 <= i < 6 ==> #[trigger] near[i] <= far[i],
    ensures
        inside(far, 1) <= inside(near, 1),
{
    law_point(near[0], near[1], near[2], near[3], near[4], near[5]);
    law_point(far[0], far[1], far[2], far[3], far[4], far[5]);
    assert(near =~= seq![near[0], near[1], near[2], near[3], near[4], near[5]]);
    assert(far =~= seq![far[0], far[1], far[2], far[3], far[4], far[5]]);
    let (x, y) = (
        65536 * near[0] + 256 * near[1] + near[2],
        65536 * near[3] + 256 * near[4] + near[5],
    );
    let (v, w) = (
        65536 * far[0] + 256 * far[1] + far[2],
        65536 * far[3] + 256 * far[4] + far[5],
    );
    assert(0 <= x <= v && 0 <= y <= w);
    assert(x * x + y * y <= v * v + w * w) by (nonlinear_arith)
        requires
            0 <= x <= v,
            0 <= y <= w,
    ;
}

/// All the points may be inside the circle, but not more.
pub proof fn lemma_inside(data: Seq<u8>, n: nat)
    ensures
        inside(data, n) <= n,
    decreases n,
{
    if n > 0 {
        lemma_inside(data, (n - 1) as nat);
    }
}

} // verus!
