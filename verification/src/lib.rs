//! A Monte-Carlo path tracer on fixed-point arithmetic: scenes of primitives
//! and triangle meshes behind a bounding volume hierarchy, materials, a
//! thin-lens camera, and images in the plain PPM format.
use crate::camera::Camera;
use crate::geom::hit::{BoundedHittable, HittableGroup};
use crate::integrator::{spec_shade, spec_walked, Bounce};
use crate::math::{rand_f64, Rand, Scalar};
use crate::vec::{ColorRGB, Ray, Vec3};
use vstd::prelude::*;
use vstd::string::StringExecFns;

pub mod accel;
pub mod camera;
pub mod geom;
pub mod integrator;
pub mod loader;
pub mod material;
pub mod math;
pub mod scheduler;
pub mod vec;

verus! {

/// `String::push` appends the given character to the end of the string.
pub assume_specification[ String::push ](s: &mut String, c: char)
    ensures
        final(s)@ == old(s)@.push(c),
;

/// The decimal digit for a number below ten.
pub open spec fn spec_digit(d: nat) -> char {
    if d == 0 {
        '0'
    } else if d == 1 {
        '1'
    } else if d == 2 {
        '2'
    } else if d == 3 {
        '3'
    } else if d == 4 {
        '4'
    } else if d == 5 {
        '5'
    } else if d == 6 {
        '6'
    } else if d == 7 {
        '7'
    } else if d == 8 {
        '8'
    } else {
        '9'
    }
}

/// The decimal numeral of a number, without leading zeros.
pub open spec fn spec_decimal(n: nat) -> Seq<char>
    decreases n,
{
    if n < 10 {
        seq![spec_digit(n)]
    } else {
        spec_decimal(n / 10).push(spec_digit(n % 10))
    }
}

/// The level between `0` and `255` that stands for a channel of a colour:
/// `255.999` times the channel, clamped to the unit interval, rounded down.
pub open spec fn spec_level(channel: Scalar) -> nat {
    let clamped = if channel@ < 0 {
        0
    } else if channel@ > 1_000_000 {
        1_000_000
    } else {
        channel@
    };
    (255_999 * clamped / 1_000_000_000) as nat
}

/// The line of a pixel: the levels of its three channels, separated by
/// blanks, and a line feed.
pub open spec fn spec_pixel(pixel: ColorRGB) -> Seq<char> {
    spec_decimal(spec_level(pixel.0)).push(' ') + spec_decimal(spec_level(pixel.1)).push(' ')
        + spec_decimal(spec_level(pixel.2)).push('\n')
}

/// The head of an image: the magic number, the width and the height, and the
/// greatest level, on three lines.
pub open spec fn spec_header(width: u32, height: u32, max_colors: u32) -> Seq<char> {
    seq!['P', '3', '\n'] + spec_decimal(width as nat).push(' ') + spec_decimal(
        height as nat,
    ).push('\n') + spec_decimal(max_colors as nat).push('\n')
}

/// The lines of the pixels of a row, from left to right.
pub open spec fn spec_row(row: Seq<ColorRGB>) -> Seq<char>
    decreases row.len(),
{
    if row.len() == 0 {
        Seq::empty()
    } else {
        spec_row(row.drop_last()) + spec_pixel(row.last())
    }
}

/// The lines of the pixels of the rows, from top to bottom.
pub open spec fn spec_rows(pixels: Seq<Vec<ColorRGB>>) -> Seq<char>
    decreases pixels.len(),
{
    if pixels.len() == 0 {
        Seq::empty()
    } else {
        spec_rows(pixels.drop_last()) + spec_row(pixels.last()@)
    }
}

/// The image in the plain PPM format: the head, then one line for every
/// pixel, row by row from the top left.
pub open spec fn spec_ppm(
    pixels: Seq<Vec<ColorRGB>>,
    width: u32,
    height: u32,
    max_colors: u32,
) -> Seq<char> {
    spec_header(width, height, max_colors) + spec_rows(pixels)
}

/// The colour as it is shown: the square root of every channel, clamped to
/// the unit interval.
pub open spec fn spec_tone_map(color: ColorRGB) -> ColorRGB {
    Vec3(spec_tone(color.0), spec_tone(color.1), spec_tone(color.2))
}

/// The square root of a channel, clamped to the unit interval.
pub open spec fn spec_tone(channel: Scalar) -> Scalar {
    crate::math::spec_f_clamp(channel.spec_sqrt(), Scalar::of(0), Scalar::of(1_000_000))
}

fn digit(d: u64) -> (c: char)
    requires
        d < 10,
    ensures
        c == spec_digit(d as nat),
{
    if d == 0 {
        '0'
    } else if d == 1 {
        '1'
    } else if d == 2 {
        '2'
    } else if d == 3 {
        '3'
    } else if d == 4 {
        '4'
    } else if d == 5 {
        '5'
    } else if d == 6 {
        '6'
    } else if d == 7 {
        '7'
    } else if d == 8 {
        '8'
    } else {
        '9'
    }
}

/// Appends the decimal numeral of `n` to `text`.
pub fn push_decimal(text: &mut String, n: u64)
    ensures
        final(text)@ == old(text)@ + spec_decimal(n as nat),
    decreases n,
{
    if n >= 10 {
        push_decimal(text, n / 10);
    }
    text.push(digit(n % 10));
    assert(text@ =~= old(text)@ + spec_decimal(n as nat));
}

/// The level between `0` and `255` that stands for a channel of a colour.
pub fn level(channel: Scalar) -> (l: u32)
    ensures
        l == spec_level(channel),
        l <= 255,
{
    let clamped: u64 = if channel.raw < 0 {
        0
    } else if channel.raw > 1_000_000 {
        1_000_000
    } else {
        channel.raw as u64
    };
    (255_999 * clamped / 1_000_000_000) as u32
}

/// Creates a `String` containing a PPM representation of a single pixel.
pub fn write_pixel(pixel: &ColorRGB) -> (line: String)
    ensures
        line@ == spec_pixel(*pixel),
{
    let mut line: String = String::new();
    push_decimal(&mut line, level(pixel.0) as u64);
    line.push(' ');
    push_decimal(&mut line, level(pixel.1) as u64);
    line.push(' ');
    push_decimal(&mut line, level(pixel.2) as u64);
    line.push('\n');
    assert(line@ =~= spec_pixel(*pixel));
    line
}

/// Creates a `String` containing a PPM representation of the image
/// described by `pixels`.
pub fn create_ppm(pixels: &Vec<Vec<ColorRGB>>, width: u32, height: u32, max_colors: u32) -> (ppm:
    String)
    ensures
        ppm@ == spec_ppm(pixels@, width, height, max_colors),
{
    let mut ppm: String = String::new();
    ppm.push('P');
    ppm.push('3');
    ppm.push('\n');
    push_decimal(&mut ppm, width as u64);
    ppm.push(' ');
    push_decimal(&mut ppm, height as u64);
    ppm.push('\n');
    push_decimal(&mut ppm, max_colors as u64);
    ppm.push('\n');
    assert(ppm@ =~= spec_header(width, height, max_colors));
    let mut i: usize = 0;
    while i < pixels.len()
        invariant
            i <= pixels.len(),
            ppm@ == spec_header(width, height, max_colors) + spec_rows(pixels@.take(i as int)),
        decreases pixels.len() - i,
    {
        let row: &Vec<ColorRGB> = &pixels[i];
        let ghost before = ppm@;
        let mut j: usize = 0;
        while j < row.len()
            invariant
                j <= row.len(),
                ppm@ == before + spec_row(row@.take(j as int)),
            decreases row.len() - j,
        {
            assert(row@.take(j + 1).drop_last() =~= row@.take(j as int));
            let line: String = write_pixel(&row[j]);
            ppm.append(line.as_str());
            assert(ppm@ =~= before + spec_row(row@.take(j + 1)));
            j += 1;
        }
        assert(row@.take(j as int) =~= row@);
        assert(pixels@.take(i + 1).drop_last() =~= pixels@.take(i as int));
        assert(ppm@ =~= spec_header(width, height, max_colors) + spec_rows(pixels@.take(i + 1)));
        i += 1;
    }
    assert(pixels@.take(i as int) =~= pixels@);
    ppm
}

/// Maps a colour to the colour that is shown for it.
pub fn tone_map(color: &ColorRGB) -> (shown: ColorRGB)
    ensures
        shown == spec_tone_map(*color),
{
    let zero: Scalar = Scalar::zero();
    let one: Scalar = Scalar::one();
    Vec3(
        crate::math::f_clamp(color.0.sqrt(), zero, one),
        crate::math::f_clamp(color.1.sqrt(), zero, one),
        crate::math::f_clamp(color.2.sqrt(), zero, one),
    )
}

/// What an image is rendered with: its size in pixels, the number of paths
/// that are followed for every pixel, the greatest number of bounces of a
/// path, and the colour of the background along the vertical.
pub struct ImageConfig<F> {
    pub width: u32,
    pub height: u32,
    pub samples: u32,
    pub max_depth: u32,
    pub background: F,
}

/// The sum of the colours, taken in order.
pub open spec fn spec_sum(colors: Seq<ColorRGB>) -> ColorRGB
    decreases colors.len(),
{
    if colors.len() == 0 {
        Vec3(Scalar::of(0), Scalar::of(0), Scalar::of(0))
    } else {
        spec_sum(colors.drop_last()).spec_add(colors.last())
    }
}

/// The colour that is shown for a pixel with the given sample colours: their
/// mean, channel by channel, tone-mapped.
pub open spec fn spec_pixel_color(colors: Seq<ColorRGB>) -> ColorRGB {
    let sum = spec_sum(colors);
    let count = Scalar::of(colors.len() as int * 1_000_000);
    spec_tone_map(Vec3(sum.0.spec_div(count), sum.1.spec_div(count), sum.2.spec_div(count)))
}

/// Whether the camera may send `ray` through the pixel in column `x` of row
/// `y` of an image of the given size: through some point of the pixel, from
/// some point of the lens.
pub open spec fn spec_aimed(camera: Camera, width: u32, height: u32, x: u32, y: u32, ray: Ray) -> bool {
    exists|across: Scalar, down: Scalar, a: Scalar, b: Scalar|
        ray == camera.spec_ray_with(
            #[trigger] spec_fraction_of(x, across, width),
            #[trigger] spec_fraction_of(y, down, height),
            #[trigger] Vec3::spec_random_in_unit_disc(a, b),
        )
}

/// Whether `color` may be one sample of the pixel in column `x` of row `y`:
/// what some path brings that follows a ray through that pixel.
pub open spec fn spec_sample<T: BoundedHittable, F: Fn(Scalar) -> ColorRGB>(
    world: HittableGroup<T>,
    camera: Camera,
    config: ImageConfig<F>,
    x: u32,
    y: u32,
    color: ColorRGB,
) -> bool {
    exists|ray: Ray, path: Seq<Bounce>|
        #[trigger] spec_aimed(camera, config.width, config.height, x, y, ray) && spec_walked(
            ray,
            world,
            config.background,
            config.max_depth,
            path,
        ) && color == #[trigger] spec_shade(path)
}

/// Whether a colour is the one shown for the pixel in column `x` of row `y`:
/// that of [`spec_pixel_color`] for as many samples of the pixel as the
/// configuration asks for.
pub open spec fn spec_shown<T: BoundedHittable, F: Fn(Scalar) -> ColorRGB>(
    world: HittableGroup<T>,
    camera: Camera,
    config: ImageConfig<F>,
    x: u32,
    y: u32,
    shown: ColorRGB,
) -> bool {
    exists|colors: Seq<ColorRGB>|
        colors.len() == config.samples && shown == #[trigger] spec_pixel_color(colors)
            && forall|i: int|
            0 <= i < colors.len() ==> spec_sample(world, camera, config, x, y, #[trigger] colors[i])
}

/// Where in the image a sample of a pixel lies: the number of the pixel plus
/// the jitter, as a fraction of the number of pixels.
pub open spec fn spec_fraction_of(pixel: u32, jitter: Scalar, pixels: u32) -> Scalar {
    Scalar::of(pixel * 1_000_000).spec_add(jitter).spec_div(Scalar::of(pixels * 1_000_000))
}

/// The colour that is shown for a pixel with the given sample colours.
pub fn pixel_color(colors: &Vec<ColorRGB>) -> (shown: ColorRGB)
    ensures
        shown == spec_pixel_color(colors@),
{
    let zero: Scalar = Scalar::zero();
    let mut sum: ColorRGB = Vec3(zero, zero, zero);
    let mut i: usize = 0;
    while i < colors.len()
        invariant
            i <= colors.len(),
            sum == spec_sum(colors@.take(i as int)),
        decreases colors.len() - i,
    {
        assert(colors@.take(i + 1).drop_last() =~= colors@.take(i as int));
        sum = sum.add(colors[i]);
        i += 1;
    }
    assert(colors@.take(i as int) =~= colors@);
    let count: Scalar = Scalar::from_count(colors.len());
    tone_map(&Vec3(sum.0.div(count), sum.1.div(count), sum.2.div(count)))
}

/// Where in the image a sample of a pixel lies.
pub fn fraction_of(pixel: u32, jitter: Scalar, pixels: u32) -> (at: Scalar)
    ensures
        at == spec_fraction_of(pixel, jitter, pixels),
{
    Scalar::from_count(pixel as usize).add(jitter).div(Scalar::from_count(pixels as usize))
}

/// Renders the pixel in column `x` of row `y`: follows one path for every
/// sample, through a point of the pixel that is drawn from `rand`, and shows
/// the mean of what the paths bring. The colour is that of
/// [`spec_pixel_color`] for as many sample colours as the configuration asks
/// for.
pub fn render_pixel<T: BoundedHittable, F: Fn(Scalar) -> ColorRGB>(
    world: &HittableGroup<T>,
    camera: &Camera,
    config: &ImageConfig<F>,
    x: u32,
    y: u32,
    rand: &mut Rand,
) -> (shown: ColorRGB)
    requires
        forall|t: Scalar| call_requires(config.background, (t,)),
    ensures
        spec_shown(*world, *camera, *config, x, y, shown),
{
    let mut colors: Vec<ColorRGB> = Vec::new();
    let mut s: u32 = 0;
    while s < config.samples
        invariant
            s <= config.samples,
            colors.len() == s,
            forall|t: Scalar| call_requires(config.background, (t,)),
            forall|i: int|
                0 <= i < colors.len() ==> spec_sample(
                    *world,
                    *camera,
                    *config,
                    x,
                    y,
                    #[trigger] colors[i],
                ),
        decreases config.samples - s,
    {
        let ghost before = colors@;
        let across: Scalar = rand_f64(rand);
        let down: Scalar = rand_f64(rand);
        let u: Scalar = fraction_of(x, across, config.width);
        let v: Scalar = fraction_of(y, down, config.height);
        let ray: Ray = camera.ray(u, v, rand);
        let color: ColorRGB = ray.get_color(world, &config.background, config.max_depth, rand);
        proof {
            let (a, b) = choose|a: Scalar, b: Scalar|
                ray == camera.spec_ray_with(u, v, #[trigger] Vec3::spec_random_in_unit_disc(a, b));
            assert(ray == camera.spec_ray_with(
                spec_fraction_of(x, across, config.width),
                spec_fraction_of(y, down, config.height),
                Vec3::spec_random_in_unit_disc(a, b),
            ));
            assert(spec_aimed(*camera, config.width, config.height, x, y, ray));
            let path = choose|path: Seq<Bounce>|
                spec_walked(ray, *world, config.background, config.max_depth, path) && color
                    == #[trigger] spec_shade(path);
            assert(spec_sample(*world, *camera, *config, x, y, color));
        }
        colors.push(color);
        assert(forall|i: int| 0 <= i < before.len() ==> colors@[i] == before[i]);
        s += 1;
    }
    pixel_color(&colors)
}

/// Renders row `y` of the image, from left to right: one colour for every
/// column.
pub fn render_row<T: BoundedHittable, F: Fn(Scalar) -> ColorRGB>(
    world: &HittableGroup<T>,
    camera: &Camera,
    config: &ImageConfig<F>,
    y: u32,
    rand: &mut Rand,
) -> (row: Vec<ColorRGB>)
    requires
        forall|t: Scalar| call_requires(config.background, (t,)),
    ensures
        row.len() == config.width,
        forall|x: int|
            0 <= x < row.len() ==> spec_shown(*world, *camera, *config, x as u32, y, #[trigger] row[x]),
{
    let mut row: Vec<ColorRGB> = Vec::new();
    let mut x: u32 = 0;
    while x < config.width
        invariant
            x <= config.width,
            row.len() == x,
            forall|t: Scalar| call_requires(config.background, (t,)),
            forall|k: int|
                0 <= k < row.len() ==> spec_shown(
                    *world,
                    *camera,
                    *config,
                    k as u32,
                    y,
                    #[trigger] row[k],
                ),
        decreases config.width - x,
    {
        let ghost before = row@;
        let shown: ColorRGB = render_pixel(world, camera, config, x, y, rand);
        row.push(shown);
        assert(forall|k: int| 0 <= k < before.len() ==> row@[k] == before[k]);
        x += 1;
    }
    row
}

/// Whether the grid of pixels shows the given sample colours: every pixel is
/// the colour of [`spec_pixel_color`] for the samples of its place.
pub open spec fn spec_shows(pixels: Seq<Vec<ColorRGB>>, samples: Seq<Seq<Seq<ColorRGB>>>) -> bool {
    &&& pixels.len() == samples.len()
    &&& forall|y: int|
        0 <= y < pixels.len() ==> (#[trigger] pixels[y]).len() == samples[y].len()
    &&& forall|y: int, x: int|
        0 <= y < pixels.len() && 0 <= x < pixels[y].len() ==> #[trigger] pixels[y][x]
            == spec_pixel_color(samples[y][x])
}

/// Rows that agree pixel for pixel have the same lines.
proof fn lemma_same_rows(first: Seq<Vec<ColorRGB>>, second: Seq<Vec<ColorRGB>>)
    requires
        first.len() == second.len(),
        forall|y: int| 0 <= y < first.len() ==> (#[trigger] first[y])@ == second[y]@,
    ensures
        spec_rows(first) == spec_rows(second),
    decreases first.len(),
{
    if first.len() > 0 {
        lemma_same_rows(first.drop_last(), second.drop_last());
        assert(first.last()@ == second.last()@);
    }
}

/// The image is a function of the samples: two grids of pixels that show
/// the same sample colours give the same text, character for character.
pub proof fn lemma_same_samples_same_image(
    first: Seq<Vec<ColorRGB>>,
    second: Seq<Vec<ColorRGB>>,
    samples: Seq<Seq<Seq<ColorRGB>>>,
    width: u32,
    height: u32,
    max_colors: u32,
)
    requires
        spec_shows(first, samples),
        spec_shows(second, samples),
    ensures
        spec_ppm(first, width, height, max_colors) == spec_ppm(second, width, height, max_colors),
{
    assert forall|y: int| 0 <= y < first.len() implies (#[trigger] first[y])@ == second[y]@ by {
        assert(first[y].len() == second[y].len());
        assert forall|x: int| 0 <= x < first[y].len() implies first[y]@[x] == second[y]@[x] by {
            assert(first[y][x] == spec_pixel_color(samples[y][x]));
            assert(second[y][x] == spec_pixel_color(samples[y][x]));
        }
        assert(first[y]@ =~= second[y]@);
    }
    lemma_same_rows(first, second);
}

} // verus!
