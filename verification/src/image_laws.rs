//! Which pixels a comparison of images looks at, and what it says of them.
use vstd::prelude::*;

use crate::image_comparison::{
    channel_error, clamped, common_length, cut, errors_within, in_range, luma, luma_products,
    luma_sum, nearest, region_offsets, row_offsets, rows_offsets, sampled, shows, similarity,
    RasterComparisonRegion, RasterComparisonSample,
};

verus! {

/// Whether a pixel lies in a region and in an image of some size.
pub open spec fn in_region(
    region: RasterComparisonRegion,
    width: usize,
    height: usize,
    x: int,
    y: int,
) -> bool {
    &&& region.x <= x < region.x + region.width
    &&& region.y <= y < region.y + region.height
    &&& x < width
    &&& y < height
}

/// Whether the pixel of a place is at an offset, with all of its bytes.
pub open spec fn pixel_at(row_bytes: usize, limit: int, x: int, y: int, offset: int) -> bool {
    offset == y * row_bytes + 4 * x && offset + 4 <= limit
}

proof fn a_row_is_looked_at(row: int, start: int, end: int, limit: int, offset: int)
    ensures
        row_offsets(row, start, end, limit).contains(offset) <==> exists|x: int|
            start <= x < end && #[trigger] at_column(row, limit, x, offset),
    decreases end - start,
{
    if start < end {
        let rest = row_offsets(row, start, end - 1, limit);
        let all = row_offsets(row, start, end, limit);
        let last = row + (end - 1) * 4;
        a_row_is_looked_at(row, start, end - 1, limit, offset);
        if all.contains(offset) {
            let i = choose|i: int| 0 <= i < all.len() && all[i] == offset;
            if i < rest.len() {
                assert(rest[i] == offset);
                let x = choose|x: int|
                    start <= x < end - 1 && #[trigger] at_column(row, limit, x, offset);
                assert(at_column(row, limit, x, offset));
            } else {
                assert(at_column(row, limit, end - 1, offset));
            }
        }
        if exists|x: int| start <= x < end && #[trigger] at_column(row, limit, x, offset) {
            let x = choose|x: int|
                start <= x < end && #[trigger] at_column(row, limit, x, offset);
            if x < end - 1 {
                assert(rest.contains(offset));
                let i = choose|i: int| 0 <= i < rest.len() && rest[i] == offset;
                assert(all[i] == offset);
            } else {
                assert(all[rest.len() as int] == offset);
            }
        }
    }
}

/// Whether the pixel of a column of a row is at an offset, with all of its bytes.
pub open spec fn at_column(row: int, limit: int, x: int, offset: int) -> bool {
    offset == row + x * 4 && offset + 4 <= limit
}

proof fn rows_are_looked_at(
    row_bytes: usize,
    start_x: int,
    end_x: int,
    start_y: int,
    end_y: int,
    limit: int,
    offset: int,
)
    ensures
        rows_offsets(row_bytes, start_x, end_x, start_y, end_y, limit).contains(offset)
            <==> exists|x: int, y: int|
            start_x <= x < end_x && start_y <= y < end_y && #[trigger] pixel_at(
                row_bytes,
                limit,
                x,
                y,
                offset,
            ),
    decreases end_y - start_y,
{
    if start_y < end_y {
        let rest = rows_offsets(row_bytes, start_x, end_x, start_y, end_y - 1, limit);
        let row = row_offsets((end_y - 1) * row_bytes, start_x, end_x, limit);
        let all = rows_offsets(row_bytes, start_x, end_x, start_y, end_y, limit);
        rows_are_looked_at(row_bytes, start_x, end_x, start_y, end_y - 1, limit, offset);
        a_row_is_looked_at((end_y - 1) * row_bytes, start_x, end_x, limit, offset);
        assert(all == rest + row);
        if all.contains(offset) {
            let i = choose|i: int| 0 <= i < all.len() && all[i] == offset;
            if i < rest.len() {
                assert(rest[i] == offset);
                let (x, y) = choose|x: int, y: int|
                    start_x <= x < end_x && start_y <= y < end_y - 1 && #[trigger] pixel_at(
                        row_bytes,
                        limit,
                        x,
                        y,
                        offset,
                    );
                assert(pixel_at(row_bytes, limit, x, y, offset));
            } else {
                assert(row[i - rest.len()] == offset);
                let x = choose|x: int|
                    start_x <= x < end_x && #[trigger] at_column(
                        (end_y - 1) * row_bytes,
                        limit,
                        x,
                        offset,
                    );
                assert(pixel_at(row_bytes, limit, x, end_y - 1, offset));
            }
        }
        if exists|x: int, y: int|
            start_x <= x < end_x && start_y <= y < end_y && #[trigger] pixel_at(
                row_bytes,
                limit,
                x,
                y,
                offset,
            ) {
            let (x, y) = choose|x: int, y: int|
                start_x <= x < end_x && start_y <= y < end_y && #[trigger] pixel_at(
                    row_bytes,
                    limit,
                    x,
                    y,
                    offset,
                );
            if y < end_y - 1 {
                assert(rest.contains(offset));
                let i = choose|i: int| 0 <= i < rest.len() && rest[i] == offset;
                assert(all[i] == offset);
            } else {
                assert(at_column((end_y - 1) * row_bytes, limit, x, offset));
                let i = choose|i: int| 0 <= i < row.len() && row[i] == offset;
                assert(all[rest.len() + i] == offset);
            }
        }
    }
}

/// A region stands for exactly those of its pixels that lie in the image, as far as the
/// bytes of both images reach.
pub proof fn a_region_is_looked_at(
    region: RasterComparisonRegion,
    width: usize,
    height: usize,
    row_bytes: usize,
    limit: int,
    offset: int,
)
    ensures
        region_offsets(region, width, height, row_bytes, limit).contains(offset) <==> exists|
            x: int,
            y: int,
        |
            in_region(region, width, height, x, y) && #[trigger] pixel_at(
                row_bytes,
                limit,
                x,
                y,
                offset,
            ),
{
    let start_x = cut(region.x as int, width);
    let end_x = cut(region.x + region.width, width);
    let start_y = cut(region.y as int, height);
    let end_y = cut(region.y + region.height, height);
    rows_are_looked_at(row_bytes, start_x, end_x, start_y, end_y, limit, offset);
    assert forall|x: int, y: int|
        #![trigger pixel_at(row_bytes, limit, x, y, offset)]
        in_region(region, width, height, x, y) <==> start_x <= x < end_x && start_y <= y
            < end_y by {}
    if exists|x: int, y: int|
        start_x <= x < end_x && start_y <= y < end_y && #[trigger] pixel_at(
            row_bytes,
            limit,
            x,
            y,
            offset,
        ) {
        let (x, y) = choose|x: int, y: int|
            start_x <= x < end_x && start_y <= y < end_y && #[trigger] pixel_at(
                row_bytes,
                limit,
                x,
                y,
                offset,
            );
        assert(in_region(region, width, height, x, y) && pixel_at(row_bytes, limit, x, y, offset));
    }
    if exists|x: int, y: int|
        in_region(region, width, height, x, y) && #[trigger] pixel_at(
            row_bytes,
            limit,
            x,
            y,
            offset,
        ) {
        let (x, y) = choose|x: int, y: int|
            in_region(region, width, height, x, y) && #[trigger] pixel_at(
                row_bytes,
                limit,
                x,
                y,
                offset,
            );
        assert(start_x <= x < end_x && start_y <= y < end_y && pixel_at(
            row_bytes,
            limit,
            x,
            y,
            offset,
        ));
    }
}

/// A comparison looks at the pixels of each of its regions, one region after the other, and
/// at no others.
pub proof fn every_region_is_looked_at(
    regions: Seq<RasterComparisonRegion>,
    width: usize,
    height: usize,
    row_bytes: usize,
    limit: int,
    n: int,
    offset: int,
)
    requires
        0 <= n <= regions.len(),
    ensures
        sampled(regions, width, height, row_bytes, limit, n).contains(offset) <==> exists|k: int|
            0 <= k < n && #[trigger] region_offsets(
                regions[k],
                width,
                height,
                row_bytes,
                limit,
            ).contains(offset),
        n > 0 ==> sampled(regions, width, height, row_bytes, limit, n).len() == sampled(
            regions,
            width,
            height,
            row_bytes,
            limit,
            n - 1,
        ).len() + region_offsets(regions[n - 1], width, height, row_bytes, limit).len(),
        n == 0 ==> sampled(regions, width, height, row_bytes, limit, n).len() == 0,
    decreases n,
{
    if n > 0 {
        let rest = sampled(regions, width, height, row_bytes, limit, n - 1);
        let last = region_offsets(regions[n - 1], width, height, row_bytes, limit);
        let all = sampled(regions, width, height, row_bytes, limit, n);
        every_region_is_looked_at(regions, width, height, row_bytes, limit, n - 1, offset);
        assert(all == rest + last);
        if all.contains(offset) {
            let i = choose|i: int| 0 <= i < all.len() && all[i] == offset;
            if i < rest.len() {
                assert(rest[i] == offset);
                let k = choose|k: int|
                    0 <= k < n - 1 && #[trigger] region_offsets(
                        regions[k],
                        width,
                        height,
                        row_bytes,
                        limit,
                    ).contains(offset);
                assert(region_offsets(regions[k], width, height, row_bytes, limit).contains(
                    offset,
                ));
            } else {
                assert(last[i - rest.len()] == offset);
                assert(last.contains(offset));
            }
        }
        if exists|k: int|
            0 <= k < n && #[trigger] region_offsets(
                regions[k],
                width,
                height,
                row_bytes,
                limit,
            ).contains(offset) {
            let k = choose|k: int|
                0 <= k < n && #[trigger] region_offsets(
                    regions[k],
                    width,
                    height,
                    row_bytes,
                    limit,
                ).contains(offset);
            if k < n - 1 {
                assert(rest.contains(offset));
                let i = choose|i: int| 0 <= i < rest.len() && rest[i] == offset;
                assert(all[i] == offset);
            } else {
                let i = choose|i: int| 0 <= i < last.len() && last[i] == offset;
                assert(all[rest.len() + i] == offset);
            }
        }
    }
}

/// The difference of two channels.
pub open spec fn difference(a: u8, b: u8) -> int {
    if a > b {
        a - b
    } else {
        b - a
    }
}

/// The differences of all channels of pixels, pixel after pixel.
pub open spec fn differences(a: Seq<u8>, b: Seq<u8>, offsets: Seq<int>) -> Seq<int> {
    Seq::new(
        (4 * offsets.len()) as nat,
        |k: int| difference(a[offsets[k / 4] + k % 4], b[offsets[k / 4] + k % 4]),
    )
}

/// How many of some numbers are in a range.
pub open spec fn how_many(numbers: Seq<int>, low: int, high: int) -> int {
    numbers.filter(|number: int| low <= number <= high).len() as int
}

proof fn one_number_more(numbers: Seq<int>, number: int, low: int, high: int)
    ensures
        how_many(numbers.push(number), low, high) == how_many(numbers, low, high) + in_range(
            number,
            low,
            high,
        ),
{
    reveal(Seq::filter);
    assert(numbers.push(number).drop_last() =~= numbers);
}

/// Errors are counted channel by channel.
pub proof fn errors_are_counted_by_channel(
    a: Seq<u8>,
    b: Seq<u8>,
    offsets: Seq<int>,
    low: int,
    high: int,
)
    ensures
        errors_within(a, b, offsets, low, high) == how_many(
            differences(a, b, offsets),
            low,
            high,
        ),
    decreases offsets.len(),
{
    reveal(Seq::filter);
    if offsets.len() > 0 {
        let rest = offsets.drop_last();
        let o = offsets.last();
        errors_are_counted_by_channel(a, b, rest, low, high);
        let before = differences(a, b, rest);
        let first = before.push(difference(a[o], b[o]));
        let second = first.push(difference(a[o + 1], b[o + 1]));
        let third = second.push(difference(a[o + 2], b[o + 2]));
        let fourth = third.push(difference(a[o + 3], b[o + 3]));
        one_number_more(before, difference(a[o], b[o]), low, high);
        one_number_more(first, difference(a[o + 1], b[o + 1]), low, high);
        one_number_more(second, difference(a[o + 2], b[o + 2]), low, high);
        one_number_more(third, difference(a[o + 3], b[o + 3]), low, high);
        let all = differences(a, b, offsets);
        assert forall|k: int| 0 <= k < all.len() implies #[trigger] all[k] == fourth[k] by {
            if k < before.len() {
                assert(offsets[k / 4] == rest[k / 4]);
            } else {
                assert(k / 4 == rest.len());
                assert(offsets[k / 4] == o);
            }
        }
        assert(all =~= fourth);
        assert(difference(a[o], b[o]) == channel_error(a, b, o));
        assert(difference(a[o + 1], b[o + 1]) == channel_error(a, b, o + 1));
        assert(difference(a[o + 2], b[o + 2]) == channel_error(a, b, o + 2));
        assert(difference(a[o + 3], b[o + 3]) == channel_error(a, b, o + 3));
    } else {
        assert(differences(a, b, offsets) =~= Seq::<int>::empty());
        assert(how_many(Seq::<int>::empty(), low, high) == 0);
    }
}

proof fn some_of_many(numbers: Seq<int>, low: int, high: int)
    ensures
        0 <= how_many(numbers, low, high) <= numbers.len(),
        how_many(numbers, low, high) > 0 <==> exists|k: int|
            0 <= k < numbers.len() && low <= #[trigger] numbers[k] <= high,
        how_many(numbers, low, high) == numbers.len() <==> forall|k: int|
            0 <= k < numbers.len() ==> low <= #[trigger] numbers[k] <= high,
    decreases numbers.len(),
{
    reveal(Seq::filter);
    if numbers.len() > 0 {
        let rest = numbers.drop_last();
        let last = numbers.len() - 1;
        some_of_many(rest, low, high);
        assert(numbers =~= rest.push(numbers[last]));
        one_number_more(rest, numbers[last], low, high);
        assert forall|k: int| 0 <= k < rest.len() implies rest[k] == #[trigger] numbers[k] by {}
        if exists|k: int| 0 <= k < rest.len() && low <= #[trigger] rest[k] <= high {
            let k = choose|k: int| 0 <= k < rest.len() && low <= #[trigger] rest[k] <= high;
            assert(low <= numbers[k] <= high);
        }
        if exists|k: int| 0 <= k < numbers.len() && low <= #[trigger] numbers[k] <= high {
            let k = choose|k: int| 0 <= k < numbers.len() && low <= #[trigger] numbers[k] <= high;
            if k < last {
                assert(low <= rest[k] <= high);
            }
        }
        if forall|k: int| 0 <= k < numbers.len() ==> low <= #[trigger] numbers[k] <= high {
            assert forall|k: int| 0 <= k < rest.len() implies low <= #[trigger] rest[k] <= high by {
                assert(low <= numbers[k] <= high);
            }
            assert(low <= numbers[last] <= high);
        }
        if how_many(numbers, low, high) == numbers.len() {
            assert forall|k: int| 0 <= k < numbers.len() implies low <= #[trigger] numbers[k]
                <= high by {
                if k < last {
                    assert(low <= rest[k] <= high);
                }
            }
        }
    } else {
        assert(how_many(numbers, low, high) == 0);
    }
}

/// The largest error of a sample is that of some channel, and no channel has a larger one.
pub proof fn the_largest_error_is_the_largest(
    sample: RasterComparisonSample,
    reference: Seq<u8>,
    candidate: Seq<u8>,
    offsets: Seq<int>,
)
    requires
        offsets.len() > 0,
        shows(sample, reference, candidate, offsets),
    ensures
        forall|k: int|
            0 <= k < 4 * offsets.len() ==> #[trigger] differences(
                reference,
                candidate,
                offsets,
            )[k] <= sample.max_channel_error,
        exists|k: int|
            0 <= k < 4 * offsets.len() && #[trigger] differences(
                reference,
                candidate,
                offsets,
            )[k] == sample.max_channel_error,
{
    let worst = sample.max_channel_error as int;
    let all = differences(reference, candidate, offsets);
    errors_are_counted_by_channel(reference, candidate, offsets, worst, worst);
    errors_are_counted_by_channel(reference, candidate, offsets, 0, worst);
    some_of_many(all, worst, worst);
    some_of_many(all, 0, worst);
    let k = choose|k: int| 0 <= k < all.len() && worst <= #[trigger] all[k] <= worst;
    assert(all[k] == worst);
}

/// Of a hundred channels no more than one has an error above that of the ninety-ninth, which
/// is the least of which this holds.
pub proof fn few_errors_are_above_the_ninety_ninth(
    sample: RasterComparisonSample,
    reference: Seq<u8>,
    candidate: Seq<u8>,
    offsets: Seq<int>,
)
    requires
        offsets.len() > 0,
        shows(sample, reference, candidate, offsets),
    ensures
        ({
            let all = differences(reference, candidate, offsets);
            let p99 = sample.p99_channel_error as int;
            &&& 100 * how_many(all, 0, p99) >= 99 * all.len()
            &&& 100 * how_many(all, 0, p99 - 1) < 99 * all.len()
        }),
{
    let p99 = sample.p99_channel_error as int;
    errors_are_counted_by_channel(reference, candidate, offsets, 0, p99);
    errors_are_counted_by_channel(reference, candidate, offsets, 0, p99 - 1);
}

/// Brightness goes by the three colours of a pixel, the first of which is blue and the third
/// red; one more of a colour counts 29, 150 and 77, and an even grey 256 times its level.
pub proof fn brightness_goes_by_colour(a: Seq<u8>, b: Seq<u8>, offset: int)
    ensures
        luma(b, offset) - luma(a, offset) == 29 * (b[offset] - a[offset]) + 150 * (b[offset + 1]
            - a[offset + 1]) + 77 * (b[offset + 2] - a[offset + 2]),
        a[offset] == a[offset + 1] && a[offset + 1] == a[offset + 2] ==> luma(a, offset) == 256
            * a[offset],
{
}

/// A sum of brightness and a sum of products go pixel by pixel, in whatever sequence.
pub proof fn brightness_is_summed_by_pixel(
    a: Seq<u8>,
    b: Seq<u8>,
    first: Seq<int>,
    second: Seq<int>,
    offset: int,
)
    ensures
        luma_sum(a, seq![offset]) == luma(a, offset),
        luma_products(a, b, seq![offset]) == luma(a, offset) * luma(b, offset),
        luma_sum(a, first + second) == luma_sum(a, first) + luma_sum(a, second),
        luma_products(a, b, first + second) == luma_products(a, b, first) + luma_products(
            a,
            b,
            second,
        ),
    decreases second.len(),
{
    let one = seq![offset];
    assert(one.drop_last() =~= Seq::<int>::empty());
    assert(luma_sum(a, Seq::<int>::empty()) == 0);
    assert(luma_products(a, b, Seq::<int>::empty()) == 0);
    if second.len() > 0 {
        brightness_is_summed_by_pixel(a, b, first, second.drop_last(), offset);
        assert((first + second).drop_last() =~= first + second.drop_last());
        assert((first + second).last() == second.last());
    } else {
        assert(first + second =~= first);
    }
}

/// The share of a number of parts is between none and all, and where it is not cut off it is
/// the nearest whole number, halves up.
pub proof fn shares_are_rounded(numerator: int, denominator: int)
    requires
        denominator > 0,
    ensures
        ({
            let rounded = nearest(numerator, denominator);
            &&& 2 * rounded * denominator <= 2 * numerator + denominator
            &&& 2 * numerator + denominator < 2 * rounded * denominator + 2 * denominator
            &&& 0 <= clamped(rounded) <= 1_000_000_000
            &&& 0 <= rounded <= 1_000_000_000 ==> clamped(rounded) == rounded
            &&& rounded < 0 ==> clamped(rounded) == 0
            &&& rounded > 1_000_000_000 ==> clamped(rounded) == 1_000_000_000
        }),
{
    let top = 2 * numerator + denominator;
    let bottom = 2 * denominator;
    vstd::arithmetic::div_mod::lemma_fundamental_div_mod(top, bottom);
    let rounded = top / bottom;
    assert(top == bottom * rounded + top % bottom);
    assert(2 * rounded * denominator == bottom * rounded) by (nonlinear_arith)
        requires
            bottom == 2 * denominator,
    ;
}

proof fn a_common_factor_cancels(numerator: int, denominator: int, factor: int)
    requires
        denominator > 0,
        factor > 0,
    ensures
        nearest(numerator * factor, denominator * factor) == nearest(numerator, denominator),
        denominator * factor > 0,
{
    let top = 2 * numerator + denominator;
    let bottom = 2 * denominator;
    vstd::arithmetic::div_mod::lemma_fundamental_div_mod(top, bottom);
    let q = top / bottom;
    let r = top % bottom;
    assert(top == bottom * q + r && 0 <= r < bottom);
    assert(2 * (numerator * factor) + denominator * factor == q * (2 * (denominator * factor)) + r
        * factor) by (nonlinear_arith)
        requires
            2 * numerator + denominator == (2 * denominator) * q + r,
    ;
    assert(0 <= r * factor < 2 * (denominator * factor)) by (nonlinear_arith)
        requires
            0 <= r < 2 * denominator,
            factor > 0,
    ;
    assert(denominator * factor > 0) by (nonlinear_arith)
        requires
            denominator > 0,
            factor > 0,
    ;
    vstd::arithmetic::div_mod::lemma_fundamental_div_mod_converse(
        2 * (numerator * factor) + denominator * factor,
        2 * (denominator * factor),
        q,
        r * factor,
    );
}

proof fn squares_are_positive(count: int, a: int, b: int)
    requires
        count > 0,
    ensures
        65536 * (count * count) > 0,
        a * a >= 0,
        b * b >= 0,
{
    assert(count * count > 0) by (nonlinear_arith)
        requires
            count > 0,
    ;
    assert(a * a >= 0) by (nonlinear_arith);
    assert(b * b >= 0) by (nonlinear_arith);
}

/// Images without any structure are compared by their brightness alone: their similarity is
/// the ratio of twice the product to the sum of the squares of both, each with the
/// stabilizer, which is the square of a hundredth of the largest brightness.
pub proof fn even_images_are_compared_by_brightness(
    count: int,
    reference: int,
    candidate: int,
    reference_squares: int,
    candidate_squares: int,
    products: int,
)
    requires
        count > 0,
        count * reference_squares == reference * reference,
        count * candidate_squares == candidate * candidate,
        count * products == reference * candidate,
    ensures
        similarity(
            count,
            reference,
            candidate,
            reference_squares,
            candidate_squares,
            products,
        ) == ({
            let stabilizer = 255 * 255 * (65536 * (count * count));
            clamped(
                nearest(
                    1_000_000_000 * (2 * (10000 * (reference * candidate)) + stabilizer),
                    10000 * (reference * reference) + 10000 * (candidate * candidate) + stabilizer,
                ),
            )
        }),
{
    squares_are_positive(count, reference, candidate);
    let unit = 65536 * (count * count);
    let means = 20000 * (reference * candidate) + 65025 * unit;
    let squared_means = 10000 * (reference * reference + candidate * candidate) + 65025 * unit;
    let factor = 585225 * unit;
    a_common_factor_cancels(1_000_000_000 * means, squared_means, factor);
    assert(1_000_000_000 * (means * factor) == (1_000_000_000 * means) * factor)
        by (nonlinear_arith);
}

/// Images of one brightness are compared by their structure alone: their similarity is the
/// ratio of twice the covariance to the sum of the variances, each with the stabilizer, which
/// is the square of three hundredths of the largest brightness.
pub proof fn images_of_one_brightness_are_compared_by_structure(
    count: int,
    brightness: int,
    reference_squares: int,
    candidate_squares: int,
    products: int,
)
    requires
        count > 0,
        count * reference_squares >= brightness * brightness,
        count * candidate_squares >= brightness * brightness,
    ensures
        similarity(
            count,
            brightness,
            brightness,
            reference_squares,
            candidate_squares,
            products,
        ) == ({
            let stabilizer = 9 * 255 * 255 * (65536 * (count * count));
            let square = brightness * brightness;
            clamped(
                nearest(
                    1_000_000_000 * (2 * (10000 * (count * products - square)) + stabilizer),
                    10000 * (count * reference_squares - square) + 10000 * (count
                        * candidate_squares - square) + stabilizer,
                ),
            )
        }),
{
    squares_are_positive(count, brightness, brightness);
    let unit = 65536 * (count * count);
    let square = brightness * brightness;
    let covariance = 20000 * (count * products - square) + 585225 * unit;
    let variances = 10000 * ((count * reference_squares - square) + (count * candidate_squares
        - square)) + 585225 * unit;
    let factor = 20000 * square + 65025 * unit;
    a_common_factor_cancels(1_000_000_000 * covariance, variances, factor);
    assert(1_000_000_000 * (factor * covariance) == (1_000_000_000 * covariance) * factor)
        by (nonlinear_arith);
    assert(factor * variances == variances * factor) by (nonlinear_arith);
}

/// How brightness and structure go together: the similarity of images is the ratio of the
/// products of the two numerators and the two denominators that count alone where the
/// structure, or the brightness, is the same.
pub proof fn brightness_and_structure_are_multiplied(
    count: int,
    reference: int,
    candidate: int,
    reference_squares: int,
    candidate_squares: int,
    products: int,
)
    ensures
        similarity(
            count,
            reference,
            candidate,
            reference_squares,
            candidate_squares,
            products,
        ) == ({
            let unit = 65536 * (count * count);
            let brightness = 255 * 255 * unit;
            let structure = 9 * 255 * 255 * unit;
            let covariance = count * products - reference * candidate;
            let reference_variance = count * reference_squares - reference * reference;
            let candidate_variance = count * candidate_squares - candidate * candidate;
            clamped(
                nearest(
                    1_000_000_000 * ((20000 * (reference * candidate) + brightness) * (20000
                        * covariance + structure)),
                    (10000 * (reference * reference + candidate * candidate) + brightness) * (10000
                        * (reference_variance + candidate_variance) + structure),
                ),
            )
        }),
{
}

/// The brightness of pixels in 256ths, from their blue, green and red.
pub open spec fn brightness(image: Seq<u8>, offsets: Seq<int>) -> Seq<int> {
    offsets.map_values(
        |offset: int| 29 * image[offset] + 150 * image[offset + 1] + 77 * image[offset + 2],
    )
}

/// The sum of the products of numbers that belong together.
pub open spec fn sum_of_products(a: Seq<int>, b: Seq<int>) -> int
    decreases a.len(),
{
    if a.len() == 0 {
        0
    } else {
        sum_of_products(a.drop_last(), b.drop_last()) + a.last() * b.last()
    }
}

/// The sum of numbers.
pub open spec fn sum(numbers: Seq<int>) -> int
    decreases numbers.len(),
{
    if numbers.len() == 0 {
        0
    } else {
        sum(numbers.drop_last()) + numbers.last()
    }
}

proof fn sums_of_brightness(a: Seq<u8>, b: Seq<u8>, offsets: Seq<int>)
    ensures
        luma_sum(a, offsets) == sum(brightness(a, offsets)),
        luma_products(a, b, offsets) == sum_of_products(
            brightness(a, offsets),
            brightness(b, offsets),
        ),
    decreases offsets.len(),
{
    if offsets.len() > 0 {
        let rest = offsets.drop_last();
        sums_of_brightness(a, b, rest);
        assert(brightness(a, offsets).drop_last() =~= brightness(a, rest));
        assert(brightness(b, offsets).drop_last() =~= brightness(b, rest));
        assert(brightness(a, offsets).last() == luma(a, offsets.last()));
        assert(brightness(b, offsets).last() == luma(b, offsets.last()));
    }
}

/// A sample tells how similar the brightness of the pixels is that were looked at, from the
/// sums of the brightness in both images, of its squares and of its products. Where there
/// were none, nothing is similar and everything as wrong as it can be.
pub proof fn a_sample_tells_the_similarity(
    sample: RasterComparisonSample,
    reference: Seq<u8>,
    candidate: Seq<u8>,
    offsets: Seq<int>,
)
    requires
        shows(sample, reference, candidate, offsets),
    ensures
        ({
            let a = brightness(reference, offsets);
            let b = brightness(candidate, offsets);
            offsets.len() > 0 ==> sample.ssim_ppb as int == similarity(
                offsets.len() as int,
                sum(a),
                sum(b),
                sum_of_products(a, a),
                sum_of_products(b, b),
                sum_of_products(a, b),
            )
        }),
        offsets.len() == 0 ==> sample.ssim_ppb == 0 && sample.p99_channel_error == 255
            && sample.max_channel_error == 255,
{
    sums_of_brightness(reference, candidate, offsets);
    sums_of_brightness(reference, reference, offsets);
    sums_of_brightness(candidate, candidate, offsets);
}

proof fn a_row_comes_once(row: int, start: int, end: int, limit: int)
    ensures
        ({
            let offsets = row_offsets(row, start, end, limit);
            &&& forall|i: int|
                0 <= i < offsets.len() ==> row + 4 * start <= #[trigger] offsets[i] < row + 4 * end
            &&& forall|i: int, j: int|
                0 <= i < j < offsets.len() ==> #[trigger] offsets[i] < #[trigger] offsets[j]
        }),
    decreases end - start,
{
    if start < end {
        a_row_comes_once(row, start, end - 1, limit);
        let rest = row_offsets(row, start, end - 1, limit);
        let all = row_offsets(row, start, end, limit);
        assert forall|i: int| 0 <= i < all.len() implies row + 4 * start <= #[trigger] all[i] < row
            + 4 * end by {
            if i < rest.len() {
                assert(all[i] == rest[i]);
            }
        }
        assert forall|i: int, j: int| 0 <= i < j < all.len() implies #[trigger] all[i]
            < #[trigger] all[j] by {
            assert(all[i] == rest[i]);
            if j < rest.len() {
                assert(all[j] == rest[j]);
            }
        }
    }
}

proof fn rows_come_once(
    row_bytes: usize,
    start_x: int,
    end_x: int,
    start_y: int,
    end_y: int,
    limit: int,
)
    requires
        0 <= start_x,
        4 * end_x <= row_bytes,
    ensures
        ({
            let offsets = rows_offsets(row_bytes, start_x, end_x, start_y, end_y, limit);
            &&& forall|i: int| 0 <= i < offsets.len() ==> #[trigger] offsets[i] < end_y * row_bytes
            &&& forall|i: int, j: int|
                0 <= i < j < offsets.len() ==> #[trigger] offsets[i] < #[trigger] offsets[j]
        }),
    decreases end_y - start_y,
{
    if start_y < end_y {
        rows_come_once(row_bytes, start_x, end_x, start_y, end_y - 1, limit);
        a_row_comes_once((end_y - 1) * row_bytes, start_x, end_x, limit);
        let rest = rows_offsets(row_bytes, start_x, end_x, start_y, end_y - 1, limit);
        let row = row_offsets((end_y - 1) * row_bytes, start_x, end_x, limit);
        let all = rows_offsets(row_bytes, start_x, end_x, start_y, end_y, limit);
        assert(all == rest + row);
        assert((end_y - 1) * row_bytes + row_bytes == end_y * row_bytes) by (nonlinear_arith);
        assert forall|i: int| 0 <= i < all.len() implies #[trigger] all[i] < end_y * row_bytes by {
            if i < rest.len() {
                assert(all[i] == rest[i]);
            } else {
                assert(all[i] == row[i - rest.len()]);
            }
        }
        assert forall|i: int, j: int| 0 <= i < j < all.len() implies #[trigger] all[i]
            < #[trigger] all[j] by {
            if j < rest.len() {
                assert(all[i] == rest[i] && all[j] == rest[j]);
            } else if i < rest.len() {
                assert(all[i] == rest[i] && all[j] == row[j - rest.len()]);
            } else {
                assert(all[i] == row[i - rest.len()] && all[j] == row[j - rest.len()]);
            }
        }
    }
}

/// The pixels of a region come row by row, and none of them twice, where the rows of the
/// images are long enough for their pixels.
pub proof fn pixels_of_a_region_come_once(
    region: RasterComparisonRegion,
    width: usize,
    height: usize,
    row_bytes: usize,
    limit: int,
    i: int,
    j: int,
)
    requires
        4 * width <= row_bytes,
        0 <= i < j < region_offsets(region, width, height, row_bytes, limit).len(),
    ensures
        region_offsets(region, width, height, row_bytes, limit)[i] < region_offsets(
            region,
            width,
            height,
            row_bytes,
            limit,
        )[j],
{
    rows_come_once(
        row_bytes,
        cut(region.x as int, width),
        cut(region.x + region.width, width),
        cut(region.y as int, height),
        cut(region.y + region.height, height),
        limit,
    );
}

/// Images are compared as far as both of them reach.
pub proof fn images_are_compared_as_far_as_both_reach(a: Seq<u8>, b: Seq<u8>)
    ensures
        common_length(a, b) <= a.len(),
        common_length(a, b) <= b.len(),
        common_length(a, b) == a.len() || common_length(a, b) == b.len(),
{
}

} // verus!
