//! A core with no emulator behind it: a picture and a state that are functions of a frame
//! counter alone, and an 8 KiB save RAM once a cart is "loaded". The host runs this where no
//! real core is available, and tests tell a fresh picture from a stale one by it.
use crate::retro::{CoreError, GBA_H, GBA_W};
use crate::text::{append_str, push_dec};
use vstd::prelude::*;

verus! {

pub const SRAM_LEN: usize = 8192;

/// The size of a picture: `GBA_W * GBA_H` pixels of four bytes.
pub const VIDEO_LEN: usize = 153600;

/// The frame counter as the picture sees it: its low 32 bits.
pub open spec fn tick(frame: u64) -> nat {
    (frame as nat) % 0x1_0000_0000
}

/// Blue: stripes eight pixels wide, on the diagonal, moving with the frame.
pub open spec fn blue_at(frame: u64, x: nat, y: nat) -> u8 {
    if (((x + y + tick(frame)) % 0x1_0000_0000) / 8) % 2 == 0 {
        0
    } else {
        255
    }
}

/// Green: a ramp from the top row to the bottom one.
pub open spec fn green_at(y: nat) -> u8 {
    (y * 255 / 159) as u8
}

/// Red: the column plus the frame, wrapping at 256.
pub open spec fn red_at(frame: u64, x: nat) -> u8 {
    ((x + tick(frame)) % 256) as u8
}

/// The four bytes of the pixel at `(x, y)`: little endian XRGB8888, so B, G, R, unused.
pub open spec fn pixel_at(v: Seq<u8>, x: nat, y: nat) -> (u8, u8, u8, u8) {
    let i: int = (4 * (240 * y + x)) as int;
    (v[i], v[i + 1], v[i + 2], v[i + 3])
}

/// `v` is the picture the mock draws for `frame`.
pub open spec fn is_picture(v: Seq<u8>, frame: u64) -> bool {
    &&& v.len() == VIDEO_LEN
    &&& forall|x: nat, y: nat|
        x < 240 && y < 160 ==> #[trigger] pixel_at(v, x, y) == (
            blue_at(frame, x, y),
            green_at(y),
            red_at(frame, x),
            0u8,
        )
}

/// `n`'s lowest `k` bytes, least significant first.
pub open spec fn le_bytes(n: nat, k: nat) -> Seq<u8>
    decreases k,
{
    if k == 0 {
        Seq::empty()
    } else {
        seq![(n % 256) as u8] + le_bytes(n / 256, (k - 1) as nat)
    }
}

/// The number little endian bytes spell.
pub open spec fn le_value(s: Seq<u8>) -> nat
    decreases s.len(),
{
    if s.len() == 0 {
        0
    } else {
        s[0] as nat + 256 * le_value(s.drop_first())
    }
}

pub open spec fn pow256(k: nat) -> nat
    decreases k,
{
    if k == 0 {
        1
    } else {
        256 * pow256((k - 1) as nat)
    }
}

proof fn lemma_le_value_bound(s: Seq<u8>)
    ensures
        le_value(s) < pow256(s.len()),
    decreases s.len(),
{
    if s.len() > 0 {
        lemma_le_value_bound(s.drop_first());
    }
}

proof fn lemma_le_round_trip(n: nat, k: nat)
    requires
        n < pow256(k),
    ensures
        le_value(le_bytes(n, k)) == n,
        le_bytes(n, k).len() == k,
    decreases k,
{
    if k > 0 {
        lemma_le_round_trip(n / 256, (k - 1) as nat);
        let b = le_bytes(n, k);
        assert(b.drop_first() == le_bytes(n / 256, (k - 1) as nat));
    }
}

/// What a state holds: the frame counter, little endian.
pub open spec fn state_of(frame: u64) -> Seq<u8> {
    le_bytes(frame as nat, 8)
}

pub struct MockCore {
    frame: u64,
    video: Vec<u8>,
    audio: Vec<i16>,
    sram: Option<Vec<u8>>,
    /// What `set_frame_skip` last said about the frame about to run. Honoured rather than
    /// ignored so a host test can tell a fresh published picture from a stale one.
    skip_next: bool,
}

/// What the mock holds: the frame counter, the picture, the samples not yet taken, the save
/// RAM, and whether the next frame goes undrawn.
pub struct MockModel {
    pub frame: u64,
    pub video: Seq<u8>,
    pub audio: Seq<i16>,
    pub sram: Option<Seq<u8>>,
    pub skip_next: bool,
}

impl View for MockCore {
    type V = MockModel;

    closed spec fn view(&self) -> MockModel {
        MockModel {
            frame: self.frame,
            video: self.video@,
            audio: self.audio@,
            sram: match self.sram {
                Some(s) => Some(s@),
                None => None,
            },
            skip_next: self.skip_next,
        }
    }
}

fn zeros(n: usize) -> (r: Vec<u8>)
    ensures
        r@ == Seq::new(n as nat, |i: int| 0u8),
{
    let mut v: Vec<u8> = Vec::new();
    let mut i: usize = 0;
    while i < n
        invariant
            i <= n,
            v@ == Seq::new(i as nat, |j: int| 0u8),
        decreases n - i,
    {
        v.push(0);
        i += 1;
        assert(v@ =~= Seq::new(i as nat, |j: int| 0u8));
    }
    v
}

impl MockCore {
    pub fn new() -> (r: Self)
        ensures
            r@.frame == 0,
            is_picture(r@.video, 0),
            r@.audio == Seq::<i16>::empty(),
            r@.sram is None,
            !r@.skip_next,
    {
        let mut c = MockCore {
            frame: 0,
            video: zeros(VIDEO_LEN),
            audio: Vec::new(),
            sram: None,
            skip_next: false,
        };
        c.render();
        c
    }

    /// Purely a function of the frame counter, so `unserialize` can regenerate the exact
    /// frame from the counter alone.
    fn render(&mut self)
        requires
            old(self).video@.len() == VIDEO_LEN,
        ensures
            is_picture(final(self).video@, old(self).frame),
            final(self).frame == old(self).frame,
            final(self).audio == old(self).audio,
            final(self).sram == old(self).sram,
            final(self).skip_next == old(self).skip_next,
    {
        let frame = self.frame;
        let t: u64 = frame % 0x1_0000_0000;
        let mut i: usize = 0;
        let mut y: u32 = 0;
        while y < GBA_H
            invariant
                y <= 160,
                i == 960 * y,
                self.frame == frame,
                self.audio == old(self).audio,
                self.sram == old(self).sram,
                self.skip_next == old(self).skip_next,
                t == tick(frame),
                self.video@.len() == VIDEO_LEN,
                forall|xx: nat, yy: nat|
                    xx < 240 && yy < y ==> #[trigger] pixel_at(self.video@, xx, yy) == (
                        blue_at(frame, xx, yy),
                        green_at(yy),
                        red_at(frame, xx),
                        0u8,
                    ),
            decreases 160 - y,
        {
            assert(y * 255 / 159 <= 255) by (nonlinear_arith)
                requires
                    y < 160,
            ;
            let g = (y * 255 / (GBA_H - 1)) as u8;
            let mut x: u32 = 0;
            while x < GBA_W
                invariant
                    y < 160,
                    x <= 240,
                    i == 960 * y + 4 * x,
                    self.frame == frame,
                    self.audio == old(self).audio,
                    self.sram == old(self).sram,
                    self.skip_next == old(self).skip_next,
                    t == tick(frame),
                    g == green_at(y as nat),
                    self.video@.len() == VIDEO_LEN,
                    forall|xx: nat, yy: nat|
                        (yy < y && xx < 240) || (yy == y && xx < x) ==> #[trigger] pixel_at(
                            self.video@,
                            xx,
                            yy,
                        ) == (blue_at(frame, xx, yy), green_at(yy), red_at(frame, xx), 0u8),
                decreases 240 - x,
            {
                let r = ((x as u64 + t) % 256) as u8;
                let b: u8 = if ((x as u64 + y as u64 + t) % 0x1_0000_0000 / 8) % 2 == 0 {
                    0
                } else {
                    255
                };
                let ghost before = self.video@;
                self.video.set(i, b);
                self.video.set(i + 1, g);
                self.video.set(i + 2, r);
                self.video.set(i + 3, 0);
                assert forall|xx: nat, yy: nat|
                    (yy < y && xx < 240) || (yy == y && xx <= x) implies #[trigger] pixel_at(
                    self.video@,
                    xx,
                    yy,
                ) == (blue_at(frame, xx, yy), green_at(yy), red_at(frame, xx), 0u8) by {
                    if yy == y && xx == x {
                    } else {
                        assert(pixel_at(self.video@, xx, yy) == pixel_at(before, xx, yy));
                    }
                }
                i += 4;
                x += 1;
            }
            y += 1;
        }
    }

    /// A cart goes in: the counter back to zero, no samples waiting, a blank save RAM.
    pub fn load(&mut self)
        ensures
            final(self)@.frame == 0,
            is_picture(final(self)@.video, 0),
            final(self)@.audio == Seq::<i16>::empty(),
            final(self)@.sram == Some(Seq::new(SRAM_LEN as nat, |i: int| 0u8)),
            final(self)@.skip_next == old(self)@.skip_next,
    {
        self.frame = 0;
        self.audio.clear();
        self.sram = Some(zeros(SRAM_LEN));
        if self.video.len() != VIDEO_LEN {
            self.video = zeros(VIDEO_LEN);
        }
        self.render();
    }

    /// One frame of the machine: the counter moves on, and the picture is drawn for the new
    /// frame unless this one was to be skipped, in which case the last picture stays.
    pub fn advance(&mut self)
        requires
            old(self)@.frame < u64::MAX,
            old(self)@.video.len() == VIDEO_LEN,
        ensures
            final(self)@.frame == old(self)@.frame + 1,
            if old(self)@.skip_next {
                final(self)@.video == old(self)@.video
            } else {
                is_picture(final(self)@.video, final(self)@.frame)
            },
            final(self)@.audio == old(self)@.audio,
            final(self)@.sram == old(self)@.sram,
            final(self)@.skip_next == old(self)@.skip_next,
    {
        self.frame = self.frame + 1;
        if !self.skip_next {
            self.render();
        }
    }

    /// The samples a frame produced, appended to those not yet taken.
    pub fn push_audio(&mut self, samples: &[i16])
        ensures
            final(self)@ == (MockModel { audio: old(self)@.audio + samples@, ..old(self)@ }),
    {
        let mut i: usize = 0;
        while i < samples.len()
            invariant
                i <= samples.len(),
                self@ == (MockModel { audio: old(self)@.audio + samples@.take(i as int), ..old(self)@ }),
            decreases samples.len() - i,
        {
            self.audio.push(samples[i]);
            i += 1;
            assert(self.audio@ =~= old(self)@.audio + samples@.take(i as int));
        }
        assert(samples@.take(samples.len() as int) =~= samples@);
    }

    pub fn set_frame_skip(&mut self, skip: bool)
        ensures
            final(self)@ == (MockModel { skip_next: skip, ..old(self)@ }),
    {
        self.skip_next = skip;
    }

    /// The frame counter.
    pub fn frame(&self) -> (r: u64)
        ensures
            r == self@.frame,
    {
        self.frame
    }

    /// `GBA_W * GBA_H * 4` bytes, little endian XRGB8888, so the byte order is B, G, R, unused.
    pub fn video_xrgb8888(&self) -> (r: &[u8])
        ensures
            r@ == self@.video,
    {
        self.video.as_slice()
    }

    /// The samples produced since the last call, leaving none behind.
    pub fn take_audio(&mut self) -> (r: Vec<i16>)
        ensures
            r@ == old(self)@.audio,
            final(self)@ == (MockModel { audio: Seq::empty(), ..old(self)@ }),
    {
        let mut out: Vec<i16> = Vec::new();
        std::mem::swap(&mut out, &mut self.audio);
        out
    }

    /// The state: the frame counter, which is all the machine is.
    pub fn serialize(&self) -> (r: Vec<u8>)
        ensures
            r@ == state_of(self@.frame),
    {
        let mut out: Vec<u8> = Vec::new();
        let mut n: u64 = self.frame;
        let mut k: usize = 0;
        while k < 8
            invariant
                k <= 8,
                out@ + le_bytes(n as nat, (8 - k) as nat) == le_bytes(self.frame as nat, 8),
            decreases 8 - k,
        {
            let ghost rest = le_bytes(n as nat, (8 - k) as nat);
            assert(rest == seq![(n % 256) as u8] + le_bytes((n / 256) as nat, (8 - k - 1) as nat));
            out.push((n % 256) as u8);
            n = n / 256;
            k += 1;
            assert(out@ + le_bytes(n as nat, (8 - k) as nat) =~= le_bytes(self.frame as nat, 8));
        }
        assert(le_bytes(n as nat, 0) =~= Seq::<u8>::empty());
        assert(out@ + Seq::<u8>::empty() =~= out@);
        out
    }

    /// Puts the machine back at the frame a state holds, dropping samples not yet taken; a
    /// state that is not eight bytes is refused and changes nothing.
    pub fn unserialize(&mut self, data: &[u8]) -> (r: Result<(), CoreError>)
        requires
            old(self)@.video.len() == VIDEO_LEN,
        ensures
            data@.len() == 8 <==> r is Ok,
            r is Ok ==> final(self)@.frame == le_value(data@) && is_picture(final(self)@.video, final(self)@.frame)
                && final(self)@.audio == Seq::<i16>::empty() && final(self)@.sram == old(self)@.sram
                && final(self)@.skip_next == old(self)@.skip_next,
            r is Err ==> final(self)@ == old(self)@ && (r matches Err(CoreError::State(m)) && m@
                == "expected 8 bytes, got "@ + crate::text::dec(data@.len())),
    {
        if data.len() != 8 {
            let mut m: Vec<char> = Vec::new();
            append_str(&mut m, "expected 8 bytes, got ");
            push_dec(&mut m, data.len() as u64);
            return Err(CoreError::State(crate::text::string_of(&m)));
        }
        let mut v: u64 = 0;
        let mut k: usize = 8;
        proof {
            lemma_le_value_bound(data@);
        }
        while k > 0
            invariant
                k <= 8,
                data@.len() == 8,
                v as nat == le_value(data@.skip(k as int)),
            decreases k,
        {
            let ghost s = data@.skip(k - 1);
            assert(s.drop_first() == data@.skip(k as int));
            proof {
                lemma_le_value_bound(s);
                lemma_pow256_8(s.len());
            }
            v = v * 256 + data[k - 1] as u64;
            k -= 1;
        }
        assert(data@.skip(0) == data@);
        self.frame = v;
        self.audio.clear();
        self.render();
        Ok(())
    }

    pub fn save_ram(&self) -> (r: Option<Vec<u8>>)
        ensures
            match r {
                Some(s) => self@.sram == Some(s@),
                None => self@.sram is None,
            },
    {
        match &self.sram {
            Some(s) => Some(s.clone()),
            None => None,
        }
    }

    /// Replaces the save RAM's contents with `data`, which must be exactly as long; with no
    /// cart loaded there is none to replace.
    pub fn load_save_ram(&mut self, data: &[u8]) -> (r: Result<(), CoreError>)
        ensures
            match old(self)@.sram {
                Some(s) => if s.len() == data@.len() {
                    r is Ok && final(self)@ == (MockModel { sram: Some(data@), ..old(self)@ })
                } else {
                    final(self)@ == old(self)@ && (r matches Err(CoreError::State(m)) && m@
                        == "save ram is "@ + crate::text::dec(s.len()) + " bytes, got "@
                        + crate::text::dec(data@.len()))
                },
                None => final(self)@ == old(self)@ && (r matches Err(CoreError::State(m)) && m@
                    == "no rom loaded"@),
            },
    {
        let len = match &self.sram {
            Some(s) => s.len(),
            None => {
                let mut m: Vec<char> = Vec::new();
                append_str(&mut m, "no rom loaded");
                assert(m@ =~= "no rom loaded"@);
                return Err(CoreError::State(crate::text::string_of(&m)));
            },
        };
        if len != data.len() {
            let mut m: Vec<char> = Vec::new();
            append_str(&mut m, "save ram is ");
            push_dec(&mut m, len as u64);
            append_str(&mut m, " bytes, got ");
            push_dec(&mut m, data.len() as u64);
            return Err(CoreError::State(crate::text::string_of(&m)));
        }
        let mut copy: Vec<u8> = Vec::new();
        let mut i: usize = 0;
        while i < data.len()
            invariant
                i <= data.len(),
                copy@ == data@.take(i as int),
            decreases data.len() - i,
        {
            copy.push(data[i]);
            i += 1;
            assert(copy@ =~= data@.take(i as int));
        }
        assert(data@.take(data.len() as int) =~= data@);
        self.sram = Some(copy);
        Ok(())
    }
}

proof fn lemma_pow256_8(k: nat)
    requires
        k <= 8,
    ensures
        pow256(k) <= 0x1_0000_0000_0000_0000,
        pow256(k) >= 1,
    decreases k,
{
    if k > 0 {
        lemma_pow256_8((k - 1) as nat);
        if k < 8 {
            lemma_pow256_k_small((k - 1) as nat);
        }
        assert(pow256(8) == 0x1_0000_0000_0000_0000) by {
            reveal_with_fuel(pow256, 9);
        }
        lemma_pow256_mono(k, 8);
    }
}

proof fn lemma_pow256_k_small(k: nat)
    ensures
        pow256(k) >= 1,
    decreases k,
{
    if k > 0 {
        lemma_pow256_k_small((k - 1) as nat);
    }
}

proof fn lemma_pow256_mono(a: nat, b: nat)
    requires
        a <= b,
    ensures
        pow256(a) <= pow256(b),
    decreases b - a,
{
    if a < b {
        lemma_pow256_mono(a, (b - 1) as nat);
        lemma_pow256_k_small((b - 1) as nat);
    }
}

/// A state the mock hands out puts it back at the very frame it was taken at.
pub proof fn law_state_round_trip(frame: u64)
    ensures
        state_of(frame).len() == 8,
        le_value(state_of(frame)) == frame,
{
    assert(pow256(8) == 0x1_0000_0000_0000_0000) by {
        reveal_with_fuel(pow256, 9);
    }
    lemma_le_round_trip(frame as nat, 8);
}

} // verus!
