//! The beginnings of a GIF writer of this library's own: the records of the
//! file's header and image descriptors.

use vstd::prelude::*;

verus! {

/// A GIF file: its logical screen header and its images.
pub struct FGif {
    header: FGifHeader,
    body: Vec<FGifImage>,
}

/// The logical screen descriptor.
struct FGifHeader {
    /// Width of the display screen.
    width: u16,
    /// Height of the display screen.
    height: u16,
    /// Bits 0-2: size of the global colour table; bit 3: its sort flag;
    /// bits 4-6: colour resolution; bit 7: whether there is a global table.
    packed: u8,
    /// Index of the background colour.
    background: u8,
    /// Pixel aspect ratio.
    aspect_ratio: u8,
}

/// An image descriptor.
struct FGifImage {
    pos_x: u16,
    pos_y: u16,
    width: u16,
    height: u16,
    /// Bit 0: local colour table flag; bit 1: interlace flag; bit 2: sort
    /// flag; bits 5-7: size of a local colour table entry.
    packed: u8,
}

/// One colour of a colour table.
pub struct ColorTable {
    r: u8,
    g: u8,
    b: u8,
}

/// What can go wrong when writing a GIF file.
pub enum WriteError {
    /// The output could not be written.
    Io(std::io::Error),
}

/// The signature and version that open a GIF file: `GIF89a`.
pub open spec fn gif_signature() -> Seq<u8> {
    seq![0x47u8, 0x49u8, 0x46u8, 0x38u8, 0x39u8, 0x61u8]
}

impl FGif {
    /// Starts the file `filename`: its signature is put together; nothing is
    /// written yet.
    pub fn write_to(filename: &str) -> (r: Result<(), WriteError>)
        ensures
            r is Ok,
    {
        let mut v: Vec<u8> = Vec::new();
        let signature: [u8; 6] = [0x47, 0x49, 0x46, 0x38, 0x39, 0x61];
        let mut i: usize = 0;
        while i < 6
            invariant
                i <= 6,
                signature@ == gif_signature(),
                v@ == gif_signature().subrange(0, i as int),
            decreases 6 - i,
        {
            v.push(signature[i]);
            i = i + 1;
        }
        assert(v@ == gif_signature());
        Ok(())
    }
}

} // verus!
