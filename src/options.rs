use vstd::prelude::*;

verus! {

/// Startup configuration, as handed over by the command-line layer.
pub struct Opts {
    /// TCP port to listen on for a single consumer; standard output otherwise.
    pub listen: Option<usize>,
    /// Height of the framebuffer, in pixels.
    pub height: usize,
    /// Width of the framebuffer, in pixels.
    pub width: usize,
    /// Bytes that represent one pixel.
    pub bytes_per_pixel: usize,
    /// Path of the pixel source, or the memory-discovery marker.
    pub file: String,
    /// Bytes skipped past the start of the pixel mapping when reading process
    /// memory; `device::DEFAULT_MEMORY_SKIP` when absent.
    pub mem_skip: Option<usize>,
}

} // verus!
