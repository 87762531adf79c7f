use vstd::prelude::*;

verus! {

/// An 8-bit RGBA pixel, as stored in the rendered raster.
#[derive(Clone, Copy, Debug, PartialEq, Eq, Structural)]
pub struct Rgba8 {
    pub r: u8,
    pub g: u8,
    pub b: u8,
    pub a: u8,
}

impl Rgba8 {
    pub fn new(r: u8, g: u8, b: u8, a: u8) -> (p: Rgba8)
        ensures
            p == (Rgba8 { r, g, b, a }),
    {
        Rgba8 { r, g, b, a }
    }

    /// The background pixel: black with a zero alpha byte.
    pub fn black() -> (p: Rgba8)
        ensures
            p == (Rgba8 { r: 0, g: 0, b: 0, a: 0 }),
    {
        Rgba8 { r: 0, g: 0, b: 0, a: 0 }
    }
}

/// Sum of one channel over a sequence of pixels; `ch` selects red, green, blue or alpha.
pub open spec fn channel_sum(s: Seq<Rgba8>, ch: int) -> nat
    decreases s.len(),
{
    if s.len() == 0 {
        0
    } else {
        channel_sum(s.drop_last(), ch) + channel_of(s.last(), ch)
    }
}

pub open spec fn channel_of(p: Rgba8, ch: int) -> nat {
    if ch == 0 {
        p.r as nat
    } else if ch == 1 {
        p.g as nat
    } else if ch == 2 {
        p.b as nat
    } else {
        p.a as nat
    }
}

/// The channel-wise integer mean (rounded down) of a non-empty sequence of pixels.
pub open spec fn average_spec(s: Seq<Rgba8>) -> Rgba8
    recommends
        s.len() > 0,
{
    Rgba8 {
        r: (channel_sum(s, 0) / s.len()) as u8,
        g: (channel_sum(s, 1) / s.len()) as u8,
        b: (channel_sum(s, 2) / s.len()) as u8,
        a: (channel_sum(s, 3) / s.len()) as u8,
    }
}

proof fn lemma_channel_sum_bound(s: Seq<Rgba8>, ch: int)
    ensures
        channel_sum(s, ch) <= 255 * s.len(),
    decreases s.len(),
{
    if s.len() > 0 {
        lemma_channel_sum_bound(s.drop_last(), ch);
    }
}

proof fn lemma_mean_fits(sum: nat, n: nat)
    requires
        n > 0,
        sum <= 255 * n,
    ensures
        sum / n <= 255,
{
    assert(sum / n <= 255) by (nonlinear_arith)
        requires
            n > 0,
            sum <= 255 * n,
    ;
}

/// Averages a set of samples channel by channel, rounding down.
pub fn average_color(samples: &Vec<Rgba8>) -> (avg: Rgba8)
    requires
        samples@.len() > 0,
        samples@.len() * 255 <= usize::MAX,
    ensures
        avg == average_spec(samples@),
        avg.r == channel_sum(samples@, 0) / samples@.len(),
        avg.g == channel_sum(samples@, 1) / samples@.len(),
        avg.b == channel_sum(samples@, 2) / samples@.len(),
        avg.a == channel_sum(samples@, 3) / samples@.len(),
{
    let n = samples.len();
    let mut sr: usize = 0;
    let mut sg: usize = 0;
    let mut sb: usize = 0;
    let mut sa: usize = 0;
    let mut i: usize = 0;
    while i < n
        invariant
            n == samples@.len(),
            n * 255 <= usize::MAX,
            i <= n,
            sr == channel_sum(samples@.take(i as int), 0),
            sg == channel_sum(samples@.take(i as int), 1),
            sb == channel_sum(samples@.take(i as int), 2),
            sa == channel_sum(samples@.take(i as int), 3),
        decreases n - i,
    {
        let p = samples[i];
        proof {
            let t = samples@.take(i as int + 1);
            assert(t.drop_last() =~= samples@.take(i as int));
            assert(t.last() == p);
            lemma_channel_sum_bound(t, 0);
            lemma_channel_sum_bound(t, 1);
            lemma_channel_sum_bound(t, 2);
            lemma_channel_sum_bound(t, 3);
            assert(255 * t.len() <= n * 255) by (nonlinear_arith)
                requires
                    t.len() <= n,
            ;
        }
        sr = sr + p.r as usize;
        sg = sg + p.g as usize;
        sb = sb + p.b as usize;
        sa = sa + p.a as usize;
        i = i + 1;
    }
    proof {
        assert(samples@.take(n as int) =~= samples@);
        lemma_channel_sum_bound(samples@, 0);
        lemma_channel_sum_bound(samples@, 1);
        lemma_channel_sum_bound(samples@, 2);
        lemma_channel_sum_bound(samples@, 3);
        lemma_mean_fits(sr as nat, n as nat);
        lemma_mean_fits(sg as nat, n as nat);
        lemma_mean_fits(sb as nat, n as nat);
        lemma_mean_fits(sa as nat, n as nat);
    }
    Rgba8 {
        r: (sr / n) as u8,
        g: (sg / n) as u8,
        b: (sb / n) as u8,
        a: (sa / n) as u8,
    }
}

} // verus!
