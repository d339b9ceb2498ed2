//! How far two renderings of the same tiles differ.
//!
//! Pixels are compared channel by channel, and by the structural similarity of
//! their brightness. The similarity is a ratio of whole numbers and is rounded
//! once, at the end.
use vstd::prelude::*;

use crate::natural::Natural;
use crate::residency::RasterComparisonStats;

verus! {

/// What a comparison has shown.
#[derive(Clone, Copy, Debug, PartialEq, Eq, Structural)]
pub struct RasterComparisonSample {
    /// The structural similarity, in parts of a billion.
    pub ssim_ppb: u32,
    /// The least error that 99 of 100 channels stay within.
    pub p99_channel_error: u8,
    /// The largest error of a channel.
    pub max_channel_error: u8,
}

/// A part of the images that is compared.
#[derive(Clone, Copy, Debug, PartialEq, Eq, Structural)]
pub struct RasterComparisonRegion {
    pub x: usize,
    pub y: usize,
    pub width: usize,
    pub height: usize,
}

/// A coordinate cut to a length.
pub open spec fn cut(coordinate: int, length: usize) -> int {
    if coordinate > length {
        length as int
    } else {
        coordinate
    }
}

/// Where the pixels of a row start that lie within the first `limit` bytes.
pub open spec fn row_offsets(row: int, start: int, end: int, limit: int) -> Seq<int>
    decreases end - start,
{
    if end <= start {
        Seq::empty()
    } else {
        let rest = row_offsets(row, start, end - 1, limit);
        let offset = row + (end - 1) * 4;
        if offset + 4 > limit {
            rest
        } else {
            rest.push(offset)
        }
    }
}

/// Where the pixels of rows start.
pub open spec fn rows_offsets(
    row_bytes: usize,
    start_x: int,
    end_x: int,
    start_y: int,
    end_y: int,
    limit: int,
) -> Seq<int>
    decreases end_y - start_y,
{
    if end_y <= start_y {
        Seq::empty()
    } else {
        rows_offsets(row_bytes, start_x, end_x, start_y, end_y - 1, limit) + row_offsets(
            (end_y - 1) * row_bytes,
            start_x,
            end_x,
            limit,
        )
    }
}

/// Where the pixels of a region start, of which the images have `width` columns and
/// `height` rows.
pub open spec fn region_offsets(
    region: RasterComparisonRegion,
    width: usize,
    height: usize,
    row_bytes: usize,
    limit: int,
) -> Seq<int> {
    rows_offsets(
        row_bytes,
        cut(region.x as int, width),
        cut(region.x + region.width, width),
        cut(region.y as int, height),
        cut(region.y + region.height, height),
        limit,
    )
}

/// Where the pixels of the first `n` regions start.
pub open spec fn sampled(
    regions: Seq<RasterComparisonRegion>,
    width: usize,
    height: usize,
    row_bytes: usize,
    limit: int,
    n: int,
) -> Seq<int>
    decreases n,
{
    if n <= 0 {
        Seq::empty()
    } else {
        sampled(regions, width, height, row_bytes, limit, n - 1) + region_offsets(
            regions[n - 1],
            width,
            height,
            row_bytes,
            limit,
        )
    }
}

/// The brightness of a pixel, in 256ths.
pub open spec fn luma(image: Seq<u8>, offset: int) -> int {
    77 * image[offset + 2] + 150 * image[offset + 1] + 29 * image[offset]
}

/// The sum of the products of the brightness of pixels in two images.
pub open spec fn luma_products(a: Seq<u8>, b: Seq<u8>, offsets: Seq<int>) -> int
    decreases offsets.len(),
{
    if offsets.len() == 0 {
        0
    } else {
        luma_products(a, b, offsets.drop_last()) + luma(a, offsets.last()) * luma(
            b,
            offsets.last(),
        )
    }
}

/// The sum of the brightness of pixels.
pub open spec fn luma_sum(image: Seq<u8>, offsets: Seq<int>) -> int
    decreases offsets.len(),
{
    if offsets.len() == 0 {
        0
    } else {
        luma_sum(image, offsets.drop_last()) + luma(image, offsets.last())
    }
}

/// The error of a channel.
pub open spec fn channel_error(a: Seq<u8>, b: Seq<u8>, place: int) -> int {
    if a[place] >= b[place] {
        a[place] - b[place]
    } else {
        b[place] - a[place]
    }
}

/// The channels of a pixel whose error is in a range.
pub open spec fn pixel_errors(a: Seq<u8>, b: Seq<u8>, offset: int, low: int, high: int) -> int {
    in_range(channel_error(a, b, offset), low, high) + in_range(
        channel_error(a, b, offset + 1),
        low,
        high,
    ) + in_range(channel_error(a, b, offset + 2), low, high) + in_range(
        channel_error(a, b, offset + 3),
        low,
        high,
    )
}

/// One where a number is in a range, else none.
pub open spec fn in_range(number: int, low: int, high: int) -> int {
    if low <= number <= high {
        1
    } else {
        0
    }
}

/// The channels of pixels whose error is in a range.
pub open spec fn errors_within(
    a: Seq<u8>,
    b: Seq<u8>,
    offsets: Seq<int>,
    low: int,
    high: int,
) -> int
    decreases offsets.len(),
{
    if offsets.len() == 0 {
        0
    } else {
        errors_within(a, b, offsets.drop_last(), low, high) + pixel_errors(
            a,
            b,
            offsets.last(),
            low,
            high,
        )
    }
}

/// A ratio to the nearest whole number, halves up.
pub open spec fn nearest(numerator: int, denominator: int) -> int {
    (2 * numerator + denominator) / (2 * denominator)
}

/// The structural similarity in parts of a billion, from the number of pixels, the
/// sums of the brightness in both images, and the sums of its squares and products.
/// With the brightness in 256ths all terms are multiples of one over ten thousand
/// times the square of 256 times the number of pixels, and the stabilizers are the
/// squares of a hundredth and of three hundredths of the largest brightness.
pub open spec fn similarity(
    count: int,
    reference: int,
    candidate: int,
    reference_squares: int,
    candidate_squares: int,
    products: int,
) -> int {
    let unit = 65536 * (count * count);
    let means = 20000 * (reference * candidate) + 65025 * unit;
    let covariance = 20000 * (count * products - reference * candidate) + 585225 * unit;
    let squared_means = 10000 * (reference * reference + candidate * candidate) + 65025 * unit;
    let variances = 10000 * ((count * reference_squares - reference * reference) + (count
        * candidate_squares - candidate * candidate)) + 585225 * unit;
    clamped(nearest(1_000_000_000 * (means * covariance), squared_means * variances))
}

/// A number of parts of a billion, from none to all.
pub open spec fn clamped(parts: int) -> int {
    if parts < 0 {
        0
    } else if parts > 1_000_000_000 {
        1_000_000_000
    } else {
        parts
    }
}

/// The number of channels that make up 99 of 100, rounded up.
pub open spec fn p99_rank(channels: int) -> int {
    (channels * 99 + 99) / 100
}

/// Whether a sample says what the pixels at some offsets show. Without pixels
/// nothing is similar and everything wrong.
pub open spec fn shows(
    sample: RasterComparisonSample,
    reference: Seq<u8>,
    candidate: Seq<u8>,
    offsets: Seq<int>,
) -> bool {
    if offsets.len() == 0 {
        sample == (RasterComparisonSample {
            ssim_ppb: 0,
            p99_channel_error: 255,
            max_channel_error: 255,
        })
    } else {
        let channels = 4 * offsets.len();
        let p99 = sample.p99_channel_error as int;
        let worst = sample.max_channel_error as int;
        &&& sample.ssim_ppb as int == similarity(
            offsets.len() as int,
            luma_sum(reference, offsets),
            luma_sum(candidate, offsets),
            luma_products(reference, reference, offsets),
            luma_products(candidate, candidate, offsets),
            luma_products(reference, candidate, offsets),
        )
        &&& errors_within(reference, candidate, offsets, 0, p99) >= p99_rank(channels as int)
        &&& errors_within(reference, candidate, offsets, 0, p99 - 1) < p99_rank(channels as int)
        &&& errors_within(reference, candidate, offsets, worst, worst) > 0
        &&& errors_within(reference, candidate, offsets, 0, worst) == channels
    }
}

proof fn luma_bounds(image: Seq<u8>, offset: int)
    ensures
        0 <= luma(image, offset) <= 65280,
{
}

proof fn sums_are_bounded(a: Seq<u8>, b: Seq<u8>, offsets: Seq<int>)
    ensures
        0 <= luma_sum(a, offsets) <= 65280 * offsets.len(),
        0 <= luma_products(a, b, offsets) <= 4_261_478_400 * offsets.len(),
    decreases offsets.len(),
{
    if offsets.len() > 0 {
        sums_are_bounded(a, b, offsets.drop_last());
        luma_bounds(a, offsets.last());
        luma_bounds(b, offsets.last());
        let x = luma(a, offsets.last());
        let y = luma(b, offsets.last());
        assert(0 <= x * y <= 65280 * 65280) by (nonlinear_arith)
            requires
                0 <= x <= 65280,
                0 <= y <= 65280,
        ;
    }
}

/// The squares of numbers weigh at least as much as the square of their sum: the
/// variance of a brightness is never below zero.
pub proof fn variance_is_not_negative(image: Seq<u8>, offsets: Seq<int>)
    ensures
        offsets.len() * luma_products(image, image, offsets) >= luma_sum(image, offsets)
            * luma_sum(image, offsets),
    decreases offsets.len(),
{
    if offsets.len() > 0 {
        let rest = offsets.drop_last();
        variance_is_not_negative(image, rest);
        let n = rest.len() as int;
        let s = luma_sum(image, rest);
        let q = luma_products(image, image, rest);
        let x = luma(image, offsets.last());
        sums_are_bounded(image, image, rest);
        assert(n * q >= s * s);
        if n == 0 {
            assert(s == 0 && q == 0);
            assert((0 + 1) * (0 + x * x) >= (0 + x) * (0 + x)) by (nonlinear_arith);
        } else {
            spread_is_not_negative(n, s, q, x);
            assert((n + 1) * (q + x * x) - (s + x) * (s + x) == (n * q - s * s) + (n * (x * x) - 2
                * (s * x) + q)) by (nonlinear_arith);
        }
    } else {
        assert(0 * luma_products(image, image, offsets) == 0);
    }
}

proof fn spread_is_not_negative(n: int, s: int, q: int, x: int)
    requires
        n > 0,
        n * q >= s * s,
    ensures
        n * (x * x) - 2 * (s * x) + q >= 0,
{
    let spread = n * (x * x) - 2 * (s * x) + q;
    assert((n * x - s) * (n * x - s) >= 0) by (nonlinear_arith);
    assert(n * spread == (n * x - s) * (n * x - s) + (n * q - s * s)) by (nonlinear_arith)
        requires
            spread == n * (x * x) - 2 * (s * x) + q,
    ;
    if spread < 0 {
        assert(n * spread < 0) by (nonlinear_arith)
            requires
                n > 0,
                spread < 0,
        ;
    }
}

proof fn errors_split(
    a: Seq<u8>,
    b: Seq<u8>,
    offsets: Seq<int>,
    low: int,
    middle: int,
    high: int,
)
    requires
        low <= middle + 1,
        middle <= high,
    ensures
        errors_within(a, b, offsets, low, high) == errors_within(a, b, offsets, low, middle)
            + errors_within(a, b, offsets, middle + 1, high),
        errors_within(a, b, offsets, low, high) >= 0,
        errors_within(a, b, offsets, low, high) <= 4 * offsets.len(),
    decreases offsets.len(),
{
    if offsets.len() > 0 {
        errors_split(a, b, offsets.drop_last(), low, middle, high);
    }
}

proof fn errors_of_all(a: Seq<u8>, b: Seq<u8>, offsets: Seq<int>)
    ensures
        errors_within(a, b, offsets, 0, 255) == 4 * offsets.len(),
        errors_within(a, b, offsets, 0, -1) == 0,
    decreases offsets.len(),
{
    if offsets.len() > 0 {
        errors_of_all(a, b, offsets.drop_last());
    }
}

/// The similarity of the sums of sampled pixels.
fn similarity_ppb(
    count: u64,
    reference: u128,
    candidate: u128,
    reference_squares: u128,
    candidate_squares: u128,
    products: u128,
) -> (ssim_ppb: u32)
    requires
        count > 0,
        count * reference_squares >= reference * reference,
        count * candidate_squares >= candidate * candidate,
    ensures
        ssim_ppb as int == similarity(
            count as int,
            reference as int,
            candidate as int,
            reference_squares as int,
            candidate_squares as int,
            products as int,
        ),
{
    let n = Natural::from_u128(count as u128);
    let r = Natural::from_u128(reference);
    let c = Natural::from_u128(candidate);
    let rr = Natural::from_u128(reference_squares);
    let cc = Natural::from_u128(candidate_squares);
    let rc = Natural::from_u128(products);
    let unit = n.times(&n).times_small(65536);
    let crossed = r.times(&c).times_small(20000);
    let squares = r.times(&r).plus(&c.times(&c)).times_small(10000);
    let means = crossed.plus(&unit.times_small(65025));
    let covariance_up = n.times(&rc).times_small(20000).plus(&unit.times_small(585225));
    let squared_means = squares.plus(&unit.times_small(65025));
    let variances_up = n.times(&rr).plus(&n.times(&cc)).times_small(10000).plus(
        &unit.times_small(585225),
    );
    let top_up = means.times(&covariance_up).times_small(2_000_000_000);
    let top_down = means.times(&crossed).times_small(2_000_000_000);
    let bottom_up = squared_means.times(&variances_up);
    let bottom_down = squared_means.times(&squares);
    let left_fixed = top_down.plus(&bottom_down);
    let right_fixed = top_up.plus(&bottom_up);
    let ghost denominator = bottom_up@ - bottom_down@;
    let ghost total = (top_up@ - top_down@) + denominator;
    proof {
        let (n, r, c) = (count as int, reference as int, candidate as int);
        let (rr, cc, rc) = (
            reference_squares as int,
            candidate_squares as int,
            products as int,
        );
        let u = 65536 * (n * n);
        let m = 20000 * (r * c) + 65025 * u;
        let v = 20000 * (n * rc - r * c) + 585225 * u;
        let p = 10000 * (r * r + c * c) + 65025 * u;
        let q = 10000 * ((n * rr - r * r) + (n * cc - c * c)) + 585225 * u;
        assert(n * n > 0) by (nonlinear_arith)
            requires
                n > 0,
        ;
        assert(r * r >= 0) by (nonlinear_arith);
        assert(c * c >= 0) by (nonlinear_arith);
        assert(p > 0 && q > 0);
        assert(unit@ == u);
        assert(means@ == m);
        assert(squared_means@ == p);
        assert(covariance_up@ - crossed@ == v);
        assert(variances_up@ - squares@ == q);
        let up = covariance_up@;
        let down = crossed@;
        assert(m * up - m * down == m * v) by (nonlinear_arith)
            requires
                up - down == v,
        ;
        let high = variances_up@;
        let low = squares@;
        assert(p * high - p * low == p * q) by (nonlinear_arith)
            requires
                high - low == q,
        ;
        assert(p * q > 0) by (nonlinear_arith)
            requires
                p > 0,
                q > 0,
        ;
        assert(denominator == p * q);
        assert(top_up@ - top_down@ == 2 * (1_000_000_000 * (m * v)));
        assert(similarity(n, r, c, rr, cc, rc) == clamped(
            nearest(1_000_000_000 * (m * v), p * q),
        ));
        assert(similarity(n, r, c, rr, cc, rc) == clamped(total / (2 * denominator)));
    }
    let mut low: u32 = 0;
    let mut high: u32 = 1_000_000_001;
    while high - low > 1
        invariant
            low < high <= 1_000_000_001,
            denominator > 0,
            denominator == bottom_up@ - bottom_down@,
            total == (top_up@ - top_down@) + denominator,
            left_fixed@ == top_down@ + bottom_down@,
            right_fixed@ == top_up@ + bottom_up@,
            bottom_up.digits@.len() < 500,
            bottom_down.digits@.len() < 500,
            left_fixed.digits@.len() < 500,
            right_fixed.digits@.len() < 500,
            low == 0 || low * (2 * denominator) <= total,
            high == 1_000_000_001 || high * (2 * denominator) > total,
        decreases high - low,
    {
        let middle: u32 = low + (high - low) / 2;
        let left = bottom_up.times_small(middle * 2).plus(&left_fixed);
        let right = bottom_down.times_small(middle * 2).plus(&right_fixed);
        let reached = left.at_most(&right);
        proof {
            let twice = (middle * 2) as int;
            let up = bottom_up@;
            let down = bottom_down@;
            assert(up * twice - down * twice == middle * (2 * denominator)) by (nonlinear_arith)
                requires
                    denominator == up - down,
                    twice == middle * 2,
            ;
        }
        if reached {
            low = middle;
        } else {
            high = middle;
        }
    }
    proof {
        let d = 2 * denominator;
        let quotient = total / d;
        vstd::arithmetic::div_mod::lemma_fundamental_div_mod(total, d);
        vstd::arithmetic::div_mod::lemma_mod_bound(total, d);
        let remainder = total % d;
        assert(total == d * quotient + remainder);
        if low > 0 {
            assert(low <= quotient) by (nonlinear_arith)
                requires
                    low * d <= total,
                    total == d * quotient + remainder,
                    0 <= remainder < d,
            ;
        }
        if high < 1_000_000_001 {
            assert(quotient < high) by (nonlinear_arith)
                requires
                    high * d > total,
                    total == d * quotient + remainder,
                    0 <= remainder < d,
            ;
        }
    }
    low
}

/// The sums over pixels.
struct Sums {
    count: u64,
    reference: u128,
    candidate: u128,
    reference_squares: u128,
    candidate_squares: u128,
    products: u128,
    errors: Vec<u64>,
}

impl Sums {
    spec fn of(&self, a: Seq<u8>, b: Seq<u8>, offsets: Seq<int>) -> bool {
        &&& self.count == offsets.len()
        &&& self.reference as int == luma_sum(a, offsets)
        &&& self.candidate as int == luma_sum(b, offsets)
        &&& self.reference_squares as int == luma_products(a, a, offsets)
        &&& self.candidate_squares as int == luma_products(b, b, offsets)
        &&& self.products as int == luma_products(a, b, offsets)
        &&& self.errors@.len() == 256
        &&& forall|error: int|
            0 <= error < 256 ==> (#[trigger] self.errors@[error]) as int == errors_within(
                a,
                b,
                offsets,
                error,
                error,
            )
    }

    fn new() -> (sums: Sums)
        ensures
            forall|a: Seq<u8>, b: Seq<u8>| #[trigger] sums.of(a, b, Seq::empty()),
    {
        let mut errors: Vec<u64> = Vec::new();
        let mut i: usize = 0;
        while i < 256
            invariant
                i <= 256,
                errors@.len() == i,
                forall|k: int| 0 <= k < i ==> errors@[k] == 0,
            decreases 256 - i,
        {
            errors.push(0);
            i = i + 1;
        }
        Sums {
            count: 0,
            reference: 0,
            candidate: 0,
            reference_squares: 0,
            candidate_squares: 0,
            products: 0,
            errors,
        }
    }

    fn count_error(&mut self, error: u8)
        requires
            old(self).errors@.len() == 256,
            old(self).errors@[error as int] < u64::MAX,
        ensures
            *final(self) == (Sums { errors: final(self).errors, ..*old(self) }),
            final(self).errors@ == old(self).errors@.update(
                error as int,
                (old(self).errors@[error as int] + 1) as u64,
            ),
    {
        let place: usize = error as usize;
        let counted: u64 = self.errors[place] + 1;
        self.errors.set(place, counted);
    }

    /// The channels of the pixels at some offsets are counted by their errors.
    spec fn counts_errors(&self, a: Seq<u8>, b: Seq<u8>, offsets: Seq<int>) -> bool {
        &&& self.errors@.len() == 256
        &&& forall|error: int|
            0 <= error < 256 ==> (#[trigger] self.errors@[error]) as int == errors_within(
                a,
                b,
                offsets,
                error,
                error,
            )
    }

    fn take_channels(
        &mut self,
        reference: &[u8],
        candidate: &[u8],
        offset: usize,
        Ghost(seen): Ghost<Seq<int>>,
    )
        requires
            old(self).counts_errors(reference@, candidate@, seen),
            offset + 4 <= reference@.len(),
            offset + 4 <= candidate@.len(),
            4 * (seen.len() + 1) <= u64::MAX,
        ensures
            *final(self) == (Sums { errors: final(self).errors, ..*old(self) }),
            final(self).counts_errors(reference@, candidate@, seen.push(offset as int)),
    {
        let ghost after = seen.push(offset as int);
        let ghost before = self.errors@;
        let ghost o = offset as int;
        let first: u8 = error_of(reference[offset], candidate[offset]);
        let second: u8 = error_of(reference[offset + 1], candidate[offset + 1]);
        let third: u8 = error_of(reference[offset + 2], candidate[offset + 2]);
        let fourth: u8 = error_of(reference[offset + 3], candidate[offset + 3]);
        proof {
            errors_counted(reference@, candidate@, seen, first as int);
            errors_counted(reference@, candidate@, seen, second as int);
            errors_counted(reference@, candidate@, seen, third as int);
            errors_counted(reference@, candidate@, seen, fourth as int);
        }
        self.count_error(first);
        let ghost one = self.errors@;
        self.count_error(second);
        let ghost two = self.errors@;
        self.count_error(third);
        let ghost three = self.errors@;
        self.count_error(fourth);
        proof {
            assert forall|error: int| 0 <= error < 256 implies (
            #[trigger] self.errors@[error]) as int == errors_within(
                reference@,
                candidate@,
                after,
                error,
                error,
            ) by {
                assert(after.drop_last() =~= seen);
                assert(before[error] as int == errors_within(
                    reference@,
                    candidate@,
                    seen,
                    error,
                    error,
                ));
                assert(one[error] == before[error] + in_range(first as int, error, error));
                assert(two[error] == one[error] + in_range(second as int, error, error));
                assert(three[error] == two[error] + in_range(third as int, error, error));
                assert(self.errors@[error] == three[error] + in_range(
                    fourth as int,
                    error,
                    error,
                ));
                assert(channel_error(reference@, candidate@, o) == first);
                assert(channel_error(reference@, candidate@, o + 1) == second);
                assert(channel_error(reference@, candidate@, o + 2) == third);
                assert(channel_error(reference@, candidate@, o + 3) == fourth);
            }
        }
    }

    fn take(
        &mut self,
        reference: &[u8],
        candidate: &[u8],
        offset: usize,
        Ghost(seen): Ghost<Seq<int>>,
    )
        requires
            old(self).of(reference@, candidate@, seen),
            offset + 4 <= reference@.len(),
            offset + 4 <= candidate@.len(),
            4 * (seen.len() + 1) <= u64::MAX,
        ensures
            final(self).of(reference@, candidate@, seen.push(offset as int)),
    {
        let ghost after = seen.push(offset as int);
        self.take_channels(reference, candidate, offset, Ghost(seen));
        proof {
            assert(after.drop_last() =~= seen);
            sums_are_bounded(reference@, reference@, seen);
            sums_are_bounded(candidate@, candidate@, seen);
            sums_are_bounded(reference@, candidate@, seen);
            sums_are_bounded(candidate@, reference@, seen);
        }
        let x: u128 = luma_of(reference, offset) as u128;
        let y: u128 = luma_of(candidate, offset) as u128;
        proof {
            assert(0 <= x * x <= 65280 * 65280 && 0 <= x * y <= 65280 * 65280 && 0 <= y * y <= 65280
                * 65280) by (nonlinear_arith)
                requires
                    0 <= x <= 65280,
                    0 <= y <= 65280,
            ;
        }
        self.reference = self.reference + x;
        self.candidate = self.candidate + y;
        self.reference_squares = self.reference_squares + x * x;
        self.candidate_squares = self.candidate_squares + y * y;
        self.products = self.products + x * y;
        self.count = self.count + 1;
    }
}

proof fn errors_counted(a: Seq<u8>, b: Seq<u8>, offsets: Seq<int>, error: int)
    ensures
        0 <= errors_within(a, b, offsets, error, error) <= 4 * offsets.len(),
    decreases offsets.len(),
{
    if offsets.len() > 0 {
        errors_counted(a, b, offsets.drop_last(), error);
    }
}

fn error_of(a: u8, b: u8) -> (error: u8)
    ensures
        error as int == if a >= b {
            a - b
        } else {
            b - a
        },
{
    if a >= b {
        a - b
    } else {
        b - a
    }
}

fn luma_of(image: &[u8], offset: usize) -> (result: u32)
    requires
        offset + 4 <= image@.len(),
    ensures
        result as int == luma(image@, offset as int),
        result <= 65280,
{
    let length: usize = image.len();
    assert(offset + 4 <= length);
    77 * (image[offset + 2] as u32) + 150 * (image[offset + 1] as u32) + 29 * (image[offset] as u32)
}

proof fn row_offsets_rise(row: int, start: int, end: int, limit: int, n: int)
    requires
        start <= n <= end,
    ensures
        row_offsets(row, start, n, limit).len() <= row_offsets(row, start, end, limit).len(),
    decreases end - n,
{
    if n < end {
        row_offsets_rise(row, start, end - 1, limit, n);
    }
}

proof fn rows_offsets_rise(
    row_bytes: usize,
    start_x: int,
    end_x: int,
    start_y: int,
    end_y: int,
    limit: int,
    n: int,
)
    requires
        start_y <= n <= end_y,
    ensures
        rows_offsets(row_bytes, start_x, end_x, start_y, n, limit).len() <= rows_offsets(
            row_bytes,
            start_x,
            end_x,
            start_y,
            end_y,
            limit,
        ).len(),
    decreases end_y - n,
{
    if n < end_y {
        rows_offsets_rise(row_bytes, start_x, end_x, start_y, end_y - 1, limit, n);
    }
}

proof fn sampled_rises(
    regions: Seq<RasterComparisonRegion>,
    width: usize,
    height: usize,
    row_bytes: usize,
    limit: int,
    n: int,
    all: int,
)
    requires
        0 <= n <= all,
    ensures
        sampled(regions, width, height, row_bytes, limit, n).len() <= sampled(
            regions,
            width,
            height,
            row_bytes,
            limit,
            all,
        ).len(),
    decreases all - n,
{
    if n < all {
        sampled_rises(regions, width, height, row_bytes, limit, n, all - 1);
    }
}

fn lesser(a: usize, b: usize) -> (result: usize)
    ensures
        result == if a <= b {
            a
        } else {
            b
        },
{
    if a <= b {
        a
    } else {
        b
    }
}

fn take_row(
    sums: &mut Sums,
    reference: &[u8],
    candidate: &[u8],
    y: usize,
    row_bytes: usize,
    start_x: usize,
    end_x: usize,
    Ghost(seen): Ghost<Seq<int>>,
)
    requires
        old(sums).of(reference@, candidate@, seen),
        start_x <= end_x,
        ({
            let limit = if reference@.len() <= candidate@.len() {
                reference@.len()
            } else {
                candidate@.len()
            };
            4 * (seen.len() + row_offsets(
                y * row_bytes,
                start_x as int,
                end_x as int,
                limit as int,
            ).len()) <= u64::MAX
        }),
    ensures
        ({
            let limit = if reference@.len() <= candidate@.len() {
                reference@.len()
            } else {
                candidate@.len()
            };
            final(sums).of(
                reference@,
                candidate@,
                seen + row_offsets(y * row_bytes, start_x as int, end_x as int, limit as int),
            )
        }),
{
    let limit: usize = lesser(reference.len(), candidate.len());
    let ghost row = y * row_bytes;
    proof {
        assert(0 <= y * row_bytes <= u64::MAX * u64::MAX) by (nonlinear_arith)
            requires
                0 <= y <= u64::MAX,
                0 <= row_bytes <= u64::MAX,
        ;
        assert(seen + Seq::<int>::empty() =~= seen);
    }
    let wide_row: u128 = (y as u128) * (row_bytes as u128);
    let mut x: usize = start_x;
    while x < end_x
        invariant
            start_x <= x <= end_x,
            limit as int == if reference@.len() <= candidate@.len() {
                reference@.len()
            } else {
                candidate@.len()
            },
            row == y * row_bytes,
            wide_row as int == row,
            wide_row <= u64::MAX * u64::MAX,
            4 * (seen.len() + row_offsets(row, start_x as int, end_x as int, limit as int).len())
                <= u64::MAX,
            sums.of(
                reference@,
                candidate@,
                seen + row_offsets(row, start_x as int, x as int, limit as int),
            ),
        decreases end_x - x,
    {
        let ghost taken = seen + row_offsets(row, start_x as int, x as int, limit as int);
        proof {
            row_offsets_rise(row, start_x as int, end_x as int, limit as int, x + 1);
        }
        if wide_row <= limit as u128 && wide_row + (x as u128) * 4 + 4 <= limit as u128 {
            let offset: u128 = wide_row + (x as u128) * 4;
            sums.take(reference, candidate, offset as usize, Ghost(taken));
            proof {
                assert(taken.push(offset as int) =~= seen + row_offsets(
                    row,
                    start_x as int,
                    x + 1,
                    limit as int,
                ));
            }
        }
        x = x + 1;
    }
}

/// The pixels of an image that is as long as the shorter of two.
pub open spec fn common_length(a: Seq<u8>, b: Seq<u8>) -> int {
    if a.len() <= b.len() {
        a.len() as int
    } else {
        b.len() as int
    }
}

fn take_region(
    sums: &mut Sums,
    reference: &[u8],
    candidate: &[u8],
    width: usize,
    height: usize,
    row_bytes: usize,
    region: RasterComparisonRegion,
    Ghost(seen): Ghost<Seq<int>>,
)
    requires
        old(sums).of(reference@, candidate@, seen),
        4 * (seen.len() + region_offsets(
            region,
            width,
            height,
            row_bytes,
            common_length(reference@, candidate@),
        ).len()) <= u64::MAX,
    ensures
        final(sums).of(
            reference@,
            candidate@,
            seen + region_offsets(
                region,
                width,
                height,
                row_bytes,
                common_length(reference@, candidate@),
            ),
        ),
{
    let ghost limit = common_length(reference@, candidate@);
    let start_x: usize = lesser(region.x, width);
    let start_y: usize = lesser(region.y, height);
    let end_x: usize = lesser(region.x.saturating_add(region.width), width);
    let end_y: usize = lesser(region.y.saturating_add(region.height), height);
    proof {
        assert(start_x as int == cut(region.x as int, width));
        assert(end_x as int == cut(region.x + region.width, width));
        assert(start_y as int == cut(region.y as int, height));
        assert(end_y as int == cut(region.y + region.height, height));
        assert(seen + Seq::<int>::empty() =~= seen);
    }
    let mut y: usize = start_y;
    while y < end_y
        invariant
            start_y <= y <= end_y,
            start_x <= end_x,
            limit == common_length(reference@, candidate@),
            4 * (seen.len() + rows_offsets(
                row_bytes,
                start_x as int,
                end_x as int,
                start_y as int,
                end_y as int,
                limit,
            ).len()) <= u64::MAX,
            sums.of(
                reference@,
                candidate@,
                seen + rows_offsets(
                    row_bytes,
                    start_x as int,
                    end_x as int,
                    start_y as int,
                    y as int,
                    limit,
                ),
            ),
        decreases end_y - y,
    {
        let ghost rows = rows_offsets(
            row_bytes,
            start_x as int,
            end_x as int,
            start_y as int,
            y as int,
            limit,
        );
        let ghost row = row_offsets(y * row_bytes, start_x as int, end_x as int, limit);
        proof {
            rows_offsets_rise(
                row_bytes,
                start_x as int,
                end_x as int,
                start_y as int,
                end_y as int,
                limit,
                y + 1,
            );
            assert((seen + rows) + row =~= seen + (rows + row));
        }
        take_row(
            sums,
            reference,
            candidate,
            y,
            row_bytes,
            start_x,
            end_x,
            Ghost(seen + rows),
        );
        y = y + 1;
    }
}

/// Compares two renderings pixel by pixel within regions. Both have `row_bytes`
/// bytes a row; what lies outside of either image is left out.
pub fn compare_bgra_images(
    reference: &[u8],
    candidate: &[u8],
    width: usize,
    height: usize,
    row_bytes: usize,
    regions: &[RasterComparisonRegion],
) -> (sample: RasterComparisonSample)
    requires
        4 * sampled(
            regions@,
            width,
            height,
            row_bytes,
            common_length(reference@, candidate@),
            regions@.len() as int,
        ).len() <= u64::MAX,
    ensures
        shows(
            sample,
            reference@,
            candidate@,
            sampled(
                regions@,
                width,
                height,
                row_bytes,
                common_length(reference@, candidate@),
                regions@.len() as int,
            ),
        ),
{
    let ghost limit = common_length(reference@, candidate@);
    let ghost all = sampled(regions@, width, height, row_bytes, limit, regions@.len() as int);
    let mut sums = Sums::new();
    let mut i: usize = 0;
    while i < regions.len()
        invariant
            i <= regions@.len(),
            limit == common_length(reference@, candidate@),
            all == sampled(regions@, width, height, row_bytes, limit, regions@.len() as int),
            4 * all.len() <= u64::MAX,
            sums.of(
                reference@,
                candidate@,
                sampled(regions@, width, height, row_bytes, limit, i as int),
            ),
        decreases regions@.len() - i,
    {
        proof {
            sampled_rises(
                regions@,
                width,
                height,
                row_bytes,
                limit,
                i + 1,
                regions@.len() as int,
            );
        }
        take_region(
            &mut sums,
            reference,
            candidate,
            width,
            height,
            row_bytes,
            regions[i],
            Ghost(sampled(regions@, width, height, row_bytes, limit, i as int)),
        );
        i = i + 1;
    }
    if sums.count == 0 {
        return RasterComparisonSample {
            ssim_ppb: 0,
            p99_channel_error: 255,
            max_channel_error: 255,
        };
    }
    proof {
        variance_is_not_negative(reference@, all);
        variance_is_not_negative(candidate@, all);
    }
    let ssim_ppb: u32 = similarity_ppb(
        sums.count,
        sums.reference,
        sums.candidate,
        sums.reference_squares,
        sums.candidate_squares,
        sums.products,
    );
    let channels: u64 = sums.count * 4;
    let rank: u64 = (((channels as u128) * 99 + 99) / 100) as u64;
    let mut cumulative: u64 = 0;
    let mut p99: Option<u8> = None;
    let mut worst: u8 = 0;
    let mut error: usize = 0;
    proof {
        errors_of_all(reference@, candidate@, all);
        errors_split(reference@, candidate@, all, 0, 0, 0);
    }
    while error < 256
        invariant
            error <= 256,
            sums.of(reference@, candidate@, all),
            channels as int == 4 * all.len(),
            rank as int == p99_rank(channels as int),
            rank > 0,
            cumulative as int == errors_within(reference@, candidate@, all, 0, error - 1),
            p99 is None ==> cumulative < rank,
            p99 is Some ==> {
                let found = p99->0 as int;
                &&& found < error
                &&& errors_within(reference@, candidate@, all, 0, found) >= rank
                &&& errors_within(reference@, candidate@, all, 0, found - 1) < rank
            },
            cumulative > 0 ==> worst < error && errors_within(
                reference@,
                candidate@,
                all,
                worst as int,
                worst as int,
            ) > 0,
            errors_within(reference@, candidate@, all, 0, worst as int) >= cumulative,
        decreases 256 - error,
    {
        let occurrences: u64 = sums.errors[error];
        proof {
            errors_split(reference@, candidate@, all, 0, error - 1, error as int);
            assert(sums.errors@[error as int] as int == errors_within(
                reference@,
                candidate@,
                all,
                error as int,
                error as int,
            ));
        }
        if occurrences > 0 {
            worst = error as u8;
            cumulative = cumulative + occurrences;
            if cumulative >= rank && p99.is_none() {
                p99 = Some(error as u8);
            }
        }
        error = error + 1;
    }
    proof {
        errors_of_all(reference@, candidate@, all);
        errors_split(reference@, candidate@, all, 0, worst as int, 255);
        errors_split(reference@, candidate@, all, worst + 1, 255, 255);
    }
    let p99_channel_error: u8 = match p99 {
        Some(found) => found,
        None => worst,
    };
    RasterComparisonSample { ssim_ppb, p99_channel_error, max_channel_error: worst }
}

/// The bytes of a row of an image of four bytes a pixel, up to the next multiple of
/// 256, as far as a machine word holds them.
pub fn comparison_row_bytes(width: usize) -> (row_bytes: usize)
    ensures
        width * 4 + 255 <= usize::MAX ==> row_bytes as int == ((width * 4 + 255) / 256) * 256,
        width * 4 + 255 > usize::MAX ==> row_bytes as int == (usize::MAX / 256) * 256,
{
    let wide: u128 = (width as u128) * 4 + 255;
    let padded: usize = if wide > usize::MAX as u128 {
        usize::MAX
    } else {
        wide as usize
    };
    (padded / 256) * 256
}

/// What comparisons have shown, with one more.
pub open spec fn accumulated(
    stats: RasterComparisonStats,
    sample: RasterComparisonSample,
) -> RasterComparisonStats {
    let samples = if stats.samples == u64::MAX {
        u64::MAX
    } else {
        (stats.samples + 1) as u64
    };
    RasterComparisonStats {
        samples,
        min_ssim_ppb: if samples == 1 || sample.ssim_ppb < stats.min_ssim_ppb {
            sample.ssim_ppb
        } else {
            stats.min_ssim_ppb
        },
        p99_channel_error: if sample.p99_channel_error > stats.p99_channel_error {
            sample.p99_channel_error
        } else {
            stats.p99_channel_error
        },
        max_channel_error: if sample.max_channel_error > stats.max_channel_error {
            sample.max_channel_error
        } else {
            stats.max_channel_error
        },
    }
}

impl RasterComparisonStats {
    /// Takes a comparison in: one more sample, the lowest similarity, the largest
    /// errors.
    pub fn accumulate(&mut self, sample: RasterComparisonSample)
        ensures
            *final(self) == accumulated(*old(self), sample),
    {
        self.samples = self.samples.saturating_add(1);
        if self.samples == 1 || sample.ssim_ppb < self.min_ssim_ppb {
            self.min_ssim_ppb = sample.ssim_ppb;
        }
        if sample.p99_channel_error > self.p99_channel_error {
            self.p99_channel_error = sample.p99_channel_error;
        }
        if sample.max_channel_error > self.max_channel_error {
            self.max_channel_error = sample.max_channel_error;
        }
    }
}

/// An image is perfectly similar to itself.
pub proof fn identical_images_are_perfectly_similar(image: Seq<u8>, offsets: Seq<int>)
    requires
        offsets.len() > 0,
    ensures
        similarity(
            offsets.len() as int,
            luma_sum(image, offsets),
            luma_sum(image, offsets),
            luma_products(image, image, offsets),
            luma_products(image, image, offsets),
            luma_products(image, image, offsets),
        ) == 1_000_000_000,
        errors_within(image, image, offsets, 0, 0) == 4 * offsets.len(),
{
    let n = offsets.len() as int;
    let s = luma_sum(image, offsets);
    let q = luma_products(image, image, offsets);
    variance_is_not_negative(image, offsets);
    no_errors(image, offsets);
    let u = 65536 * (n * n);
    let m = 20000 * (s * s) + 65025 * u;
    let v = 20000 * (n * q - s * s) + 585225 * u;
    assert(n * n > 0) by (nonlinear_arith)
        requires
            n > 0,
    ;
    assert(s * s >= 0) by (nonlinear_arith);
    assert(m > 0 && v > 0);
    assert(m * v > 0) by (nonlinear_arith)
        requires
            m > 0,
            v > 0,
    ;
    assert(10000 * (s * s + s * s) + 65025 * u == m);
    assert(10000 * ((n * q - s * s) + (n * q - s * s)) + 585225 * u == v);
    let d = m * v;
    assert((2 * (1_000_000_000 * d) + d) / (2 * d) == 1_000_000_000) by (nonlinear_arith)
        requires
            d > 0,
    ;
}

proof fn sums_are_symmetric(a: Seq<u8>, b: Seq<u8>, offsets: Seq<int>, low: int, high: int)
    ensures
        luma_products(a, b, offsets) == luma_products(b, a, offsets),
        errors_within(a, b, offsets, low, high) == errors_within(b, a, offsets, low, high),
    decreases offsets.len(),
{
    if offsets.len() > 0 {
        sums_are_symmetric(a, b, offsets.drop_last(), low, high);
        let x = luma(a, offsets.last());
        let y = luma(b, offsets.last());
        assert(x * y == y * x) by (nonlinear_arith);
    }
}

proof fn similarity_is_symmetric(
    count: int,
    reference: int,
    candidate: int,
    reference_squares: int,
    candidate_squares: int,
    products: int,
)
    ensures
        similarity(
            count,
            reference,
            candidate,
            reference_squares,
            candidate_squares,
            products,
        ) == similarity(
            count,
            candidate,
            reference,
            candidate_squares,
            reference_squares,
            products,
        ),
{
    assert(reference * candidate == candidate * reference) by (nonlinear_arith);
}

/// Only one sample says what the pixels show.
pub proof fn a_comparison_has_one_result(
    first: RasterComparisonSample,
    second: RasterComparisonSample,
    reference: Seq<u8>,
    candidate: Seq<u8>,
    offsets: Seq<int>,
)
    requires
        shows(first, reference, candidate, offsets),
        shows(second, reference, candidate, offsets),
    ensures
        first == second,
{
    if offsets.len() > 0 {
        fewer_errors_below(
            reference,
            candidate,
            offsets,
            first.p99_channel_error as int,
            second.p99_channel_error as int,
        );
        fewer_errors_below(
            reference,
            candidate,
            offsets,
            second.p99_channel_error as int,
            first.p99_channel_error as int,
        );
        no_error_above(first, second, reference, candidate, offsets);
        no_error_above(second, first, reference, candidate, offsets);
    }
}

proof fn fewer_errors_below(a: Seq<u8>, b: Seq<u8>, offsets: Seq<int>, low: int, high: int)
    requires
        0 <= low,
    ensures
        low < high ==> errors_within(a, b, offsets, 0, low) <= errors_within(
            a,
            b,
            offsets,
            0,
            high - 1,
        ),
{
    if low < high {
        errors_split(a, b, offsets, 0, low, high - 1);
        if low + 1 <= high - 1 {
            errors_split(a, b, offsets, low + 1, low + 1, high - 1);
        } else {
            errors_split(a, b, offsets, low + 1, low, low);
        }
    }
}

proof fn no_error_above(
    first: RasterComparisonSample,
    second: RasterComparisonSample,
    reference: Seq<u8>,
    candidate: Seq<u8>,
    offsets: Seq<int>,
)
    requires
        offsets.len() > 0,
        shows(first, reference, candidate, offsets),
        shows(second, reference, candidate, offsets),
    ensures
        first.max_channel_error >= second.max_channel_error,
{
    let worst = first.max_channel_error as int;
    let other = second.max_channel_error as int;
    if worst < other {
        errors_split(reference, candidate, offsets, 0, worst, other);
        errors_split(reference, candidate, offsets, worst + 1, other - 1, other);
        if worst + 1 <= other - 1 {
            errors_split(reference, candidate, offsets, worst + 1, worst + 1, other - 1);
        } else {
            errors_split(reference, candidate, offsets, worst + 1, worst, worst);
        }
    }
}

/// The two images may be swapped: a comparison shows the same of them.
pub proof fn comparing_is_symmetric(
    first: RasterComparisonSample,
    second: RasterComparisonSample,
    reference: Seq<u8>,
    candidate: Seq<u8>,
    width: usize,
    height: usize,
    row_bytes: usize,
    regions: Seq<RasterComparisonRegion>,
)
    requires
        shows(
            first,
            reference,
            candidate,
            sampled(
                regions,
                width,
                height,
                row_bytes,
                common_length(reference, candidate),
                regions.len() as int,
            ),
        ),
        shows(
            second,
            candidate,
            reference,
            sampled(
                regions,
                width,
                height,
                row_bytes,
                common_length(candidate, reference),
                regions.len() as int,
            ),
        ),
    ensures
        first == second,
{
    let offsets = sampled(
        regions,
        width,
        height,
        row_bytes,
        common_length(reference, candidate),
        regions.len() as int,
    );
    assert(common_length(reference, candidate) == common_length(candidate, reference));
    if offsets.len() > 0 {
        let p99 = second.p99_channel_error as int;
        let worst = second.max_channel_error as int;
        sums_are_symmetric(reference, candidate, offsets, 0, p99);
        sums_are_symmetric(reference, candidate, offsets, 0, p99 - 1);
        sums_are_symmetric(reference, candidate, offsets, worst, worst);
        sums_are_symmetric(reference, candidate, offsets, 0, worst);
        similarity_is_symmetric(
            offsets.len() as int,
            luma_sum(reference, offsets),
            luma_sum(candidate, offsets),
            luma_products(reference, reference, offsets),
            luma_products(candidate, candidate, offsets),
            luma_products(reference, candidate, offsets),
        );
        assert(shows(second, reference, candidate, offsets));
    }
    a_comparison_has_one_result(first, second, reference, candidate, offsets);
}

proof fn no_errors(image: Seq<u8>, offsets: Seq<int>)
    ensures
        errors_within(image, image, offsets, 0, 0) == 4 * offsets.len(),
    decreases offsets.len(),
{
    if offsets.len() > 0 {
        no_errors(image, offsets.drop_last());
    }
}

} // verus!
