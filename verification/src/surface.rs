//! A software stand-in for the platform pixel surface: resize, acquire a
//! pixel buffer, present. The surface owns a `width * height` buffer of
//! packed `0x00RRGGBB` pixels; presenting consumes the acquisition and
//! commits nothing further.

use vstd::prelude::*;

use core::marker::PhantomData;

verus! {

use vstd::string::StringExecFns;

/// The error every fallible surface operation reports.
#[derive(Clone, Copy, PartialEq, Eq, Structural, Debug)]
pub struct SoftBufferError;

impl SoftBufferError {
    /// A human-readable description of the failure.
    pub fn message(&self) -> (s: String)
        ensures
            s@ == "softbuffer operation failed"@,
    {
        String::from_str("softbuffer operation failed")
    }
}

/// The per-display context a surface is created from; it only keeps the
/// window handle alive.
pub struct Context<W> {
    pub window: W,
}

impl<W> Context<W> {
    /// Create a context for a window. Creation always succeeds here.
    pub fn new(window: W) -> (r: Result<Context<W>, SoftBufferError>)
        ensures
            match r {
                Ok(c) => c.window == window,
                Err(_) => false,
            },
    {
        Ok(Context { window })
    }
}

/// A pixel surface bound to a window: a resizable buffer of packed
/// `0x00RRGGBB` pixels.
pub struct Surface<C, W> {
    pub width: u32,
    pub height: u32,
    pub buffer: Vec<u32>,
    pub window: W,
    pub context_marker: PhantomData<C>,
}

impl<C, W> Surface<C, W> {
    /// Create a surface over a window; it starts as a single black pixel.
    pub fn new(_context: &Context<W>, window: W) -> (r: Result<Surface<C, W>, SoftBufferError>)
        ensures
            match r {
                Ok(s) => s.width == 1 && s.height == 1 && s.buffer@.len() == 1 && s.buffer@[0]
                    == 0 && s.window == window,
                Err(_) => false,
            },
    {
        let mut buffer: Vec<u32> = Vec::new();
        buffer.push(0);
        Ok(
            Surface {
                width: 1,
                height: 1,
                buffer,
                window,
                context_marker: PhantomData,
            },
        )
    }

    /// Resize the surface. Fails, changing nothing, exactly when either
    /// dimension is zero; otherwise the buffer keeps its prefix and pads
    /// with black pixels.
    pub fn resize(&mut self, width: u32, height: u32) -> (r: Result<(), SoftBufferError>)
        requires
            width as int * height as int <= u32::MAX as int,
        ensures
            (r is Ok) <==> (width != 0 && height != 0),
            (r is Err) ==> *final(self) == *old(self),
            (r is Ok) ==> final(self).width == width && final(self).height == height
                && final(self).window == old(self).window
                && final(self).buffer@.len() == width as int * height as int
                && (forall|i: int|
                0 <= i < final(self).buffer@.len() ==> final(self).buffer@[i] == (
                if i < old(self).buffer@.len() {
                    old(self).buffer@[i]
                } else {
                    0u32
                })),
    {
        if width == 0 || height == 0 {
            return Err(SoftBufferError);
        }
        let n: usize = (width as usize) * (height as usize);
        let ghost buf0: Seq<u32> = self.buffer@;
        proof {
            assert(self.buffer@ =~= buf0.take(self.buffer@.len() as int));
        }
        while self.buffer.len() > n
            invariant
                self.width == old(self).width,
                self.height == old(self).height,
                self.window == old(self).window,
                self.buffer@.len() <= buf0.len(),
                n <= self.buffer@.len() || self.buffer@.len() == buf0.len(),
                self.buffer@ == buf0.take(self.buffer@.len() as int),
            decreases self.buffer@.len(),
        {
            self.buffer.pop();
            proof {
                assert(self.buffer@ =~= buf0.take(self.buffer@.len() as int));
            }
        }
        while self.buffer.len() < n
            invariant
                self.buffer@.len() <= n,
                buf0.len() <= self.buffer@.len() || self.buffer@.len() == n,
                self.width == old(self).width,
                self.height == old(self).height,
                self.window == old(self).window,
                forall|i: int|
                    0 <= i < self.buffer@.len() ==> self.buffer@[i] == (if i < buf0.len() {
                        buf0[i]
                    } else {
                        0u32
                    }),
            decreases n - self.buffer@.len(),
        {
            self.buffer.push(0);
        }
        self.width = width;
        self.height = height;
        Ok(())
    }

    /// Acquire the surface's pixel buffer for writing. The surface hands
    /// its pixels over and keeps an empty buffer until the next resize.
    pub fn buffer_mut(&mut self) -> (r: Result<Buffer, SoftBufferError>)
        ensures
            match r {
                Ok(b) => b.data@ == old(self).buffer@ && final(self).width == old(self).width
                    && final(self).height == old(self).height
                    && final(self).window == old(self).window
                    && final(self).buffer@.len() == 0,
                Err(_) => false,
            },
    {
        let mut data: Vec<u32> = Vec::new();
        core::mem::swap(&mut data, &mut self.buffer);
        Ok(Buffer { data })
    }
}

/// One frame's worth of packed pixels, acquired from a [`Surface`];
/// presenting consumes it.
pub struct Buffer {
    pub data: Vec<u32>,
}

impl Buffer {
    /// Commit the written pixels for display.
    pub fn present(self) -> (r: Result<(), SoftBufferError>)
        ensures
            r is Ok,
    {
        Ok(())
    }
}

} // verus!
