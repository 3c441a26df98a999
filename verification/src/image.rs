//! Images: a width, a height, and the pixels row by row, top to bottom; and
//! the conversion of an image from one color space to another.

use crate::color::{is_total, Pixel};
use crate::variant::ColorSpace;
use vstd::prelude::*;

verus! {

/// An image in memory.
#[derive(Debug)]
pub struct Image {
    /// The width in pixels.
    pub width: u32,
    /// The height in pixels.
    pub height: u32,
    /// The pixels, row by row from the top, each row from the left.
    pub pixels: Vec<Pixel>,
}

/// Why a conversion between two color spaces is refused.
#[derive(Clone, Copy, Debug, PartialEq, Eq, Structural)]
pub enum InvalidConfiguration {
    /// The source holds no color, the output is a color space.
    NonColorSource,
    /// The output holds no color, the source is a color space.
    NonColorOutput,
}

impl InvalidConfiguration {
    /// The sentence that explains the refusal.
    pub open spec fn text(self) -> Seq<char> {
        match self {
            InvalidConfiguration::NonColorSource => "non-color source requires non-color output"@,
            InvalidConfiguration::NonColorOutput => "non-color output requires non-color source"@,
        }
    }

    /// Returns the sentence that explains the refusal.
    pub fn message(self) -> (text: &'static str)
        ensures
            text@ == self.text(),
    {
        match self {
            InvalidConfiguration::NonColorSource => "non-color source requires non-color output",
            InvalidConfiguration::NonColorOutput => "non-color output requires non-color source",
        }
    }
}

/// What is to be done to take pixels from `source` to `output`: `Ok(false)`
/// where the two are the same and nothing is to be done, `Ok(true)` where the
/// pixels are to be converted, and an error where one of the two is
/// `NonColor` and the other is not: data without color is never read as
/// color, nor color as data without color.
pub open spec fn conversion(source: ColorSpace, output: ColorSpace) -> Result<
    bool,
    InvalidConfiguration,
> {
    if source == output {
        Ok(false)
    } else if source == ColorSpace::NonColor {
        Err(InvalidConfiguration::NonColorSource)
    } else if output == ColorSpace::NonColor {
        Err(InvalidConfiguration::NonColorOutput)
    } else {
        Ok(true)
    }
}

/// Decides what is to be done to take pixels from `source` to `output`.
pub fn plan_conversion(source: ColorSpace, output: ColorSpace) -> (plan: Result<
    bool,
    InvalidConfiguration,
>)
    ensures
        plan == conversion(source, output),
        plan is Err <==> source != output && (source == ColorSpace::NonColor || output
            == ColorSpace::NonColor),
{
    if source == output {
        Ok(false)
    } else if source == ColorSpace::NonColor {
        Err(InvalidConfiguration::NonColorSource)
    } else if output == ColorSpace::NonColor {
        Err(InvalidConfiguration::NonColorOutput)
    } else {
        Ok(true)
    }
}

impl Image {
    /// Whether the image holds as many pixels as its width and height say.
    pub open spec fn wf(&self) -> bool {
        self.pixels@.len() == self.width * self.height
    }

    /// Whether the image holds at least as many pixels as its width and
    /// height say, so that every row is there.
    pub open spec fn has_rows(&self) -> bool {
        self.width * self.height <= self.pixels@.len()
    }

    /// Makes an image of the given size, every component of every pixel
    /// zero.
    pub fn new(width: u32, height: u32) -> (image: Image)
        requires
            width * height <= usize::MAX,
        ensures
            image.width == width,
            image.height == height,
            image.wf(),
            forall|i: int|
                0 <= i < image.pixels@.len() ==> image.pixels@[i] == (Pixel {
                    r: 0,
                    g: 0,
                    b: 0,
                    a: 0,
                }),
    {
        let count: usize = (width as u64 * height as u64) as usize;
        let mut pixels: Vec<Pixel> = Vec::new();
        let mut i: usize = 0;
        while i < count
            invariant
                i <= count,
                pixels@.len() == i,
                forall|j: int| 0 <= j < i ==> pixels@[j] == (Pixel { r: 0, g: 0, b: 0, a: 0 }),
            decreases count - i,
        {
            pixels.push(Pixel { r: 0, g: 0, b: 0, a: 0 });
            i = i + 1;
        }
        Image { width, height, pixels }
    }

    /// Takes every pixel from `source` to `output`.
    ///
    /// Nothing is done where the two color spaces are the same. Where one
    /// of them is `NonColor` and the other is not, the conversion is refused
    /// and no pixel is touched. Alpha is never changed.
    pub fn convert<F: Fn(u64, u64) -> u64>(
        &mut self,
        source: ColorSpace,
        output: ColorSpace,
        powf: &F,
    ) -> (done: Result<(), InvalidConfiguration>)
        requires
            is_total(*powf),
        ensures
            final(self).width == old(self).width,
            final(self).height == old(self).height,
            final(self).pixels@.len() == old(self).pixels@.len(),
            forall|i: int|
                0 <= i < old(self).pixels@.len() ==> final(self).pixels@[i].a == old(self).pixels@[i].a,
            match conversion(source, output) {
                Ok(true) => done is Ok && forall|i: int|
                    0 <= i < old(self).pixels@.len() ==> old(self).pixels@[i].is_converted(
                        source,
                        output,
                        #[trigger] final(self).pixels@[i],
                        *powf,
                    ),
                Ok(false) => done is Ok && final(self).pixels@ == old(self).pixels@,
                Err(refusal) => done == Err::<(), InvalidConfiguration>(refusal) && final(self).pixels@ == old(self).pixels@,
            },
    {
        match plan_conversion(source, output) {
            Err(refusal) => Err(refusal),
            Ok(false) => Ok(()),
            Ok(true) => {
                let count = self.pixels.len();
                let mut i: usize = 0;
                while i < count
                    invariant
                        i <= count,
                        is_total(*powf),
                        self.pixels@.len() == count,
                        self.pixels@.len() == old(self).pixels@.len(),
                        self.width == old(self).width,
                        self.height == old(self).height,
                        forall|j: int|
                            0 <= j < i ==> old(self).pixels@[j].is_converted(
                                source,
                                output,
                                #[trigger] self.pixels@[j],
                                *powf,
                            ),
                        forall|j: int| 0 <= j < count ==> self.pixels@[j].a == old(self).pixels@[j].a,
                        forall|j: int| i <= j < count ==> self.pixels@[j] == old(self).pixels@[j],
                    decreases count - i,
                {
                    let pixel = self.pixels[i];
                    self.pixels[i] = pixel.convert(source, output, powf);
                    i = i + 1;
                }
                Ok(())
            },
        }
    }
}

} // verus!
