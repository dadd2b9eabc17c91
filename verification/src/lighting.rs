use vstd::prelude::*;

verus! {

/// One 24-bit color.
#[derive(Debug, Clone, Copy, PartialEq, Eq, Structural)]
pub struct Rgb {
    pub red: u8,
    pub green: u8,
    pub blue: u8,
}

impl Rgb {
    /// All channels off.
    pub fn black() -> (color: Rgb)
        ensures
            color == (Rgb { red: 0, green: 0, blue: 0 }),
    {
        Rgb { red: 0, green: 0, blue: 0 }
    }
}

/// One color per LED, in LED index order.
#[derive(Debug, Clone, PartialEq, Eq)]
pub struct Frame {
    pixels: Vec<Rgb>,
}

impl View for Frame {
    type V = Seq<Rgb>;

    closed spec fn view(&self) -> Seq<Rgb> {
        self.pixels@
    }
}

impl Frame {
    /// A frame of `led_count` LEDs that all show `color`.
    pub fn solid(led_count: usize, color: Rgb) -> (frame: Frame)
        ensures
            frame@ == Seq::new(led_count as nat, |i: int| color),
    {
        let mut pixels: Vec<Rgb> = Vec::with_capacity(led_count);
        let mut i: usize = 0;
        while i < led_count
            invariant
                i <= led_count,
                pixels@ == Seq::new(i as nat, |j: int| color),
            decreases led_count - i,
        {
            pixels.push(color);
            i = i + 1;
        }
        Frame { pixels }
    }

    /// Wraps the given pixels unchanged.
    pub fn from_pixels(pixels: Vec<Rgb>) -> (frame: Frame)
        ensures
            frame@ == pixels@,
    {
        Frame { pixels }
    }

    /// The colors, one per LED.
    pub fn pixels(&self) -> (pixels: &[Rgb])
        ensures
            pixels@ == self@,
    {
        self.pixels.as_slice()
    }

    /// Number of LEDs.
    pub fn len(&self) -> (len: usize)
        ensures
            len == self@.len(),
    {
        self.pixels.len()
    }
}

} // verus!
