//! How a clip becomes the features the audio tower reads: the padding, the
//! framing, the split over threads and the cut into chunks. A sample and an
//! energy are values of any type `T`: nothing here looks inside one.
//!
//! Frames start at their hop rather than centred on it, and one extra half
//! chunk of silence is appended before framing, so a clip of `n` whole chunks
//! becomes `n + 1` chunks of features, the last half silence and half padding.

use vstd::prelude::*;

use crate::arith::{
    ceil_div, div_ceil, law_rounding_up_is_to_the_next_multiple, lemma_ceil_div,
    lemma_ceil_div_unique, round_up,
};

verus! {

pub const SAMPLE_RATE: u32 = 16_000;

pub const N_FFT: usize = 400;

pub const HOP_LENGTH: usize = 160;

pub const N_MELS: usize = 128;

/// Samples in the 30-second chunks the model reads audio in.
pub const CHUNK_SAMPLES: usize = 480_000;

/// Mel frames per chunk.
pub const CHUNK_FRAMES: usize = 3_000;

/// The frames the spectrogram is padded with and rounded up to: half a chunk.
pub const PAD_FRAMES: usize = 1_500;

/// The most threads a spectrogram is split over.
pub const MAX_THREADS: usize = 12;

/// `s` with copies of `x` behind it, up to the length `n`.
pub open spec fn extended<T>(s: Seq<T>, n: nat, x: T) -> Seq<T> {
    Seq::new(n, |i: int| if i < s.len() { s[i] } else { x })
}

/// `s` with copies of `x` behind it, up to the length `n`.
fn extend<T: Copy>(s: &[T], n: usize, x: T) -> (res: Vec<T>)
    requires
        s@.len() <= n,
    ensures
        res@ == extended(s@, n as nat, x),
{
    let mut res: Vec<T> = Vec::new();
    let mut i: usize = 0;
    while i < n
        invariant
            i <= n,
            s@.len() <= n,
            res@.len() == i,
            forall|j: int| 0 <= j < i ==> res@[j] == extended(s@, n as nat, x)[j],
        decreases n - i,
    {
        if i < s.len() {
            res.push(s[i]);
        } else {
            res.push(x);
        }
        i = i + 1;
    }
    assert(res@ =~= extended(s@, n as nat, x));
    res
}

/// Pad `audio` up to a whole multiple of `chunk` samples, filling the tail
/// with `zero`. Input already aligned to `chunk` (including empty input) is
/// returned as it is.
pub fn pad_to_chunk<T: Copy>(audio: &[T], chunk: usize, zero: T) -> (res: Vec<T>)
    requires
        chunk > 0,
        round_up(audio@.len(), chunk as nat) <= usize::MAX,
    ensures
        res@ == extended(audio@, round_up(audio@.len(), chunk as nat), zero),
        audio@.len() <= res@.len() < audio@.len() + chunk,
        res@.len() % chunk as nat == 0,
        forall|i: int| 0 <= i < audio@.len() ==> res@[i] == #[trigger] audio@[i],
        forall|i: int| audio@.len() <= i < res@.len() ==> #[trigger] res@[i] == zero,
{
    proof {
        lemma_ceil_div(audio@.len(), chunk as nat);
        law_rounding_up_is_to_the_next_multiple(audio@.len(), chunk as nat);
    }
    let chunks: usize = div_ceil(audio.len(), chunk);
    extend(audio, chunks * chunk, zero)
}

/// The numbers a table of little-endian 32-bit words holds. Bytes past the
/// last whole word are dropped.
pub open spec fn words(bytes: Seq<u8>) -> Seq<u32> {
    Seq::new(
        bytes.len() / 4,
        |i: int|
            (bytes[4 * i] + 0x100 * bytes[4 * i + 1] + 0x1_0000 * bytes[4 * i + 2] + 0x100_0000
                * bytes[4 * i + 3]) as u32,
    )
}

/// Decode a mel filter bank: rows of `N_FFT / 2 + 1` weights, as the bits of
/// little-endian IEEE 754 singles.
pub fn mel_filters(bytes: &[u8]) -> (res: Vec<u32>)
    ensures
        res@ == words(bytes@),
{
    let mut res: Vec<u32> = Vec::new();
    let n: usize = bytes.len() / 4;
    let mut i: usize = 0;
    while i < n
        invariant
            i <= n,
            n == bytes@.len() / 4,
            bytes@.len() <= usize::MAX,
            res@.len() == i,
            forall|j: int| 0 <= j < i ==> res@[j] == words(bytes@)[j],
        decreases n - i,
    {
        let a: u32 = bytes[4 * i] as u32;
        let b: u32 = bytes[4 * i + 1] as u32;
        let c: u32 = bytes[4 * i + 2] as u32;
        let d: u32 = bytes[4 * i + 3] as u32;
        res.push(a + 0x100 * b + 0x1_0000 * c + 0x100_0000 * d);
        i = i + 1;
    }
    assert(res@ =~= words(bytes@));
    res
}

/// The frames of the spectrogram of `samples` samples: their number over the
/// hop, rounded up to a half chunk, plus one more half chunk.
pub open spec fn frame_count(samples: nat) -> nat {
    round_up(samples / HOP_LENGTH as nat, PAD_FRAMES as nat) + PAD_FRAMES as nat
}

proof fn lemma_frame_count(samples: nat)
    ensures
        samples < frame_count(samples) * HOP_LENGTH,
        frame_count(samples) * HOP_LENGTH <= samples + 2 * PAD_FRAMES * HOP_LENGTH,
{
    lemma_ceil_div(samples / HOP_LENGTH as nat, PAD_FRAMES as nat);
}

/// The frames of the spectrogram of `samples` samples.
pub fn mel_frames(samples: usize) -> (res: usize)
    ensures
        res == frame_count(samples as nat),
{
    proof {
        lemma_ceil_div(samples as nat / HOP_LENGTH as nat, PAD_FRAMES as nat);
    }
    div_ceil(samples / HOP_LENGTH, PAD_FRAMES) * PAD_FRAMES + PAD_FRAMES
}

/// The samples a spectrogram is framed from: `samples`, and `zero` up to the
/// end of the last frame's hop.
pub fn pad_to_frames<T: Copy>(samples: &[T], zero: T) -> (res: Vec<T>)
    requires
        frame_count(samples@.len()) * HOP_LENGTH <= usize::MAX,
    ensures
        res@ == extended(samples@, frame_count(samples@.len()) * HOP_LENGTH as nat, zero),
        res@.len() == 160 * frame_count(samples@.len()),
        samples@.len() < res@.len(),
        forall|i: int| 0 <= i < samples@.len() ==> res@[i] == #[trigger] samples@[i],
        forall|i: int| samples@.len() <= i < res@.len() ==> #[trigger] res@[i] == zero,
{
    proof {
        lemma_frame_count(samples@.len());
    }
    let n: usize = mel_frames(samples.len());
    extend(samples, n * HOP_LENGTH, zero)
}

/// Where the window of frame `frame` starts in `len` samples, and how many of
/// its `N_FFT` samples are there; the rest are zeros.
pub fn frame_window(frame: usize, len: usize) -> (res: (usize, usize))
    requires
        frame * HOP_LENGTH <= len,
    ensures
        res.0 == frame * HOP_LENGTH,
        res.1 == if len - res.0 < N_FFT {
            len - res.0
        } else {
            N_FFT as int
        },
{
    let offset: usize = frame * HOP_LENGTH;
    let available: usize = len - offset;
    (offset, if available < N_FFT { available } else { N_FFT })
}

/// Every frame's window starts among the samples it is framed from.
pub proof fn law_every_frame_has_samples(samples: nat, frame: nat)
    requires
        frame < frame_count(samples),
    ensures
        (frame + 1) * HOP_LENGTH <= frame_count(samples) * HOP_LENGTH,
{
}

/// Silence at the end of a clip changes nothing up to the same number of
/// frames: what is framed is sample for sample the same.
pub proof fn law_trailing_silence_is_not_heard<T>(a: Seq<T>, b: Seq<T>, zero: T)
    requires
        a.len() <= b.len(),
        b.take(a.len() as int) == a,
        forall|i: int| a.len() <= i < b.len() ==> b[i] == zero,
        frame_count(a.len()) == frame_count(b.len()),
    ensures
        extended(a, frame_count(a.len()) * HOP_LENGTH as nat, zero) == extended(
            b,
            frame_count(b.len()) * HOP_LENGTH as nat,
            zero,
        ),
{
    let n = frame_count(a.len()) * HOP_LENGTH as nat;
    assert forall|i: int| 0 <= i < n implies extended(a, n, zero)[i] == extended(b, n, zero)[i] by {
        if i < a.len() {
            assert(b.take(a.len() as int)[i] == b[i]);
        }
    }
    assert(extended(a, n, zero) =~= extended(b, n, zero));
}

/// The threads a spectrogram is split over when `available` can run at once.
pub fn mel_threads(available: usize) -> (res: usize)
    ensures
        res == if available < MAX_THREADS {
            available
        } else {
            MAX_THREADS
        },
{
    if available < MAX_THREADS {
        available
    } else {
        MAX_THREADS
    }
}

/// The runs of frames `n` frames are split into over `threads` threads: the
/// first and the one past the last of each.
pub open spec fn run_plan(n: nat, threads: nat) -> Seq<(usize, usize)> {
    let per = ceil_div(n, threads);
    Seq::new(
        ceil_div(n, per),
        |k: int|
            (
                (k * per) as usize,
                if (k + 1) * per < n {
                    ((k + 1) * per) as usize
                } else {
                    n as usize
                },
            ),
    )
}

/// The runs of frames `n` frames are split into over `threads` threads.
pub fn mel_runs(n: usize, threads: usize) -> (res: Vec<(usize, usize)>)
    requires
        n > 0,
        threads > 0,
    ensures
        res@ == run_plan(n as nat, threads as nat),
{
    let per: usize = div_ceil(n, threads);
    proof {
        lemma_ceil_div(n as nat, threads as nat);
        lemma_ceil_div(n as nat, per as nat);
    }
    let mut res: Vec<(usize, usize)> = Vec::new();
    let mut start: usize = 0;
    let ghost mut k: int = 0;
    while start < n
        invariant
            n > 0,
            per > 0,
            per == ceil_div(n as nat, threads as nat),
            0 <= k == res@.len(),
            start <= n,
            start < n ==> start == k * per,
            start == n ==> k == ceil_div(n as nat, per as nat),
            start < n ==> k < ceil_div(n as nat, per as nat),
            forall|j: int| 0 <= j < k ==> res@[j] == run_plan(n as nat, threads as nat)[j],
        decreases n - start,
    {
        assert((k + 1) * per == k * per + per) by (nonlinear_arith);
        let end: usize = if n - start <= per {
            n
        } else {
            start + per
        };
        res.push((start, end));
        proof {
            if end == n {
                lemma_ceil_div_unique(n as nat, per as nat, (k + 1) as nat);
            } else {
                lemma_ceil_div(n as nat, per as nat);
                let c = ceil_div(n as nat, per as nat) as int;
                assert(k + 1 < c) by (nonlinear_arith)
                    requires
                        (k + 1) * per < n,
                        n <= c * per,
                        per > 0,
                ;
            }
            k = k + 1;
        }
        start = end;
    }
    assert(res@ =~= run_plan(n as nat, threads as nat));
    res
}

/// Where mel bin `m` of frame `f` stands in a spectrogram of `n` frames: the
/// bins are its rows.
pub open spec fn cell(m: int, f: int, n: int) -> int {
    m * n + f
}

/// The energy of mel bin `m` of frame `f`: from the last run that covers the
/// frame, or `zero` when none does. A run is its first frame and the `N_MELS`
/// energies of each of its frames.
pub open spec fn energy<T>(runs: Seq<(usize, Vec<T>)>, f: int, m: int, zero: T) -> T
    decreases runs.len(),
{
    if runs.len() == 0 {
        zero
    } else {
        let run = runs.last();
        if run.0 <= f < run.0 + run.1@.len() / N_MELS as nat {
            run.1@[(f - run.0) * N_MELS + m]
        } else {
            energy(runs.drop_last(), f, m, zero)
        }
    }
}

proof fn lemma_cells(n: int)
    requires
        n >= 0,
    ensures
        forall|m: int, f: int|
            0 <= m < N_MELS && 0 <= f < n ==> 0 <= #[trigger] cell(m, f, n) < N_MELS * n,
        forall|m: int, f: int, m2: int, f2: int|
            0 <= f < n && 0 <= f2 < n && #[trigger] cell(m, f, n) == #[trigger] cell(m2, f2, n)
                ==> m == m2 && f == f2,
{
    assert forall|m: int, f: int| 0 <= m < N_MELS && 0 <= f < n implies 0 <= #[trigger] cell(
        m,
        f,
        n,
    ) < N_MELS * n by {
        assert(0 <= m * n && m * n + n <= 128 * n) by (nonlinear_arith)
            requires
                0 <= m < 128,
                n >= 0,
        ;
    }
    assert forall|m: int, f: int, m2: int, f2: int|
        0 <= f < n && 0 <= f2 < n && #[trigger] cell(m, f, n) == #[trigger] cell(
            m2,
            f2,
            n,
        ) implies m == m2 && f == f2 by {
        assert(m == m2) by (nonlinear_arith)
            requires
                0 <= f < n,
                0 <= f2 < n,
                m * n + f == m2 * n + f2,
        ;
    }
}

/// Put the runs the threads computed into the spectrogram of `n` frames,
/// `(N_MELS, n)`, row-major.
pub fn assemble<T: Copy>(runs: &Vec<(usize, Vec<T>)>, n: usize, zero: T) -> (res: Vec<T>)
    requires
        N_MELS * n <= usize::MAX,
        forall|r: int|
            0 <= r < runs@.len() ==> (#[trigger] runs@[r]).0 + runs@[r].1@.len() / N_MELS as nat
                <= n,
    ensures
        res@.len() == N_MELS * n,
        forall|m: int, f: int|
            0 <= m < N_MELS && 0 <= f < n ==> res@[#[trigger] cell(m, f, n as int)] == energy(
                runs@,
                f,
                m,
                zero,
            ),
{
    let empty: Vec<T> = Vec::new();
    let mut res: Vec<T> = extend(&empty, N_MELS * n, zero);
    proof {
        lemma_cells(n as int);
        assert(runs@.take(0).len() == 0);
    }
    let mut r: usize = 0;
    while r < runs.len()
        invariant
            r <= runs@.len(),
            N_MELS * n <= usize::MAX,
            forall|k: int|
                0 <= k < runs@.len() ==> (#[trigger] runs@[k]).0 + runs@[k].1@.len() / N_MELS as nat
                    <= n,
            res@.len() == N_MELS * n,
            forall|m: int, f: int|
                0 <= m < N_MELS && 0 <= f < n ==> res@[#[trigger] cell(m, f, n as int)] == energy(
                    runs@.take(r as int),
                    f,
                    m,
                    zero,
                ),
        decreases runs@.len() - r,
    {
        let start: usize = runs[r].0;
        let frames: usize = runs[r].1.len() / N_MELS;
        let ghost before = runs@.take(r as int);
        let ghost now = runs@.take(r + 1);
        proof {
            assert(now.drop_last() =~= before);
            assert(now.last() == runs@[r as int]);
            assert(runs@[r as int].0 + runs@[r as int].1@.len() / N_MELS as nat <= n);
        }
        let mut offset: usize = 0;
        while offset < frames
            invariant
                r < runs@.len(),
                offset <= frames,
                start == runs@[r as int].0,
                frames == runs@[r as int].1@.len() / N_MELS as nat,
                start + frames <= n,
                N_MELS * n <= usize::MAX,
                before == runs@.take(r as int),
                now == runs@.take(r + 1),
                now.drop_last() == before,
                now.last() == runs@[r as int],
                res@.len() == N_MELS * n,
                forall|m: int, f: int|
                    0 <= m < N_MELS && 0 <= f < n ==> res@[#[trigger] cell(m, f, n as int)] == (
                    if start <= f < start + offset {
                        energy(now, f, m, zero)
                    } else {
                        energy(before, f, m, zero)
                    }),
            decreases frames - offset,
        {
            let f: usize = start + offset;
            let mut m: usize = 0;
            while m < N_MELS
                invariant
                    r < runs@.len(),
                    m <= N_MELS,
                    offset < frames,
                    f == start + offset,
                    start == runs@[r as int].0,
                    frames == runs@[r as int].1@.len() / N_MELS as nat,
                    start + frames <= n,
                    N_MELS * n <= usize::MAX,
                    now.len() > 0,
                    now.last() == runs@[r as int],
                    res@.len() == N_MELS * n,
                    forall|m2: int, f2: int|
                        0 <= m2 < N_MELS && 0 <= f2 < n ==> res@[#[trigger] cell(
                            m2,
                            f2,
                            n as int,
                        )] == (if start <= f2 < f || (f2 == f && m2 < m) {
                            energy(now, f2, m2, zero)
                        } else {
                            energy(before, f2, m2, zero)
                        }),
                decreases N_MELS - m,
            {
                proof {
                    lemma_cells(n as int);
                    assert(0 <= cell(m as int, f as int, n as int) < N_MELS * n);
                    assert(0 <= m * n) by (nonlinear_arith);
                }
                let v: T = runs[r].1[offset * N_MELS + m];
                assert(v == energy(now, f as int, m as int, zero));
                res.set(m * n + f, v);
                m = m + 1;
            }
            offset = offset + 1;
        }
        r = r + 1;
    }
    assert(runs@.take(runs@.len() as int) =~= runs@);
    res
}

/// The energies of the frames from `start` to `end`, frame by frame, where
/// `energies` gives that of each frame and mel bin.
pub open spec fn run_energies<T>(
    energies: spec_fn(int, int) -> T,
    start: int,
    end: int,
) -> Seq<T> {
    Seq::new(
        ((end - start) * N_MELS) as nat,
        |i: int| energies(start + i / N_MELS as int, i % N_MELS as int),
    )
}

/// Which thread computes a frame does not change a bit of it: however many
/// threads the frames are split over, the spectrogram put together from their
/// runs holds each frame's own energies.
pub proof fn law_threads_do_not_matter<T>(
    runs: Seq<(usize, Vec<T>)>,
    n: nat,
    threads: nat,
    energies: spec_fn(int, int) -> T,
    zero: T,
    f: int,
    m: int,
)
    requires
        0 < n <= usize::MAX,
        threads > 0,
        runs.len() == run_plan(n, threads).len(),
        forall|k: int|
            0 <= k < runs.len() ==> (#[trigger] runs[k]).0 == run_plan(n, threads)[k].0
                && runs[k].1@ == run_energies(
                energies,
                run_plan(n, threads)[k].0 as int,
                run_plan(n, threads)[k].1 as int,
            ),
        0 <= f < n,
        0 <= m < N_MELS,
    ensures
        energy(runs, f, m, zero) == energies(f, m),
{
    let per = ceil_div(n, threads);
    lemma_ceil_div(n, threads);
    lemma_ceil_div(n, per);
    let k = f / per as int;
    vstd::arithmetic::div_mod::lemma_fundamental_div_mod(f, per as int);
    assert(k * per == per * k) by (nonlinear_arith);
    assert((k + 1) * per == k * per + per) by (nonlinear_arith);
    let c = ceil_div(n, per) as int;
    assert(0 <= k < c) by (nonlinear_arith)
        requires
            k * per <= f,
            f < k * per + per,
            0 <= f < n,
            n <= c * per,
            per > 0,
    ;
    lemma_energy_of_plan(runs, n, threads, energies, zero, f, m, k, runs.len() as int);
}

#[verifier::spinoff_prover]
proof fn lemma_energy_of_plan<T>(
    runs: Seq<(usize, Vec<T>)>,
    n: nat,
    threads: nat,
    energies: spec_fn(int, int) -> T,
    zero: T,
    f: int,
    m: int,
    k: int,
    upto: int,
)
    requires
        0 < n <= usize::MAX,
        threads > 0,
        runs.len() == run_plan(n, threads).len(),
        forall|j: int|
            0 <= j < runs.len() ==> (#[trigger] runs[j]).0 == run_plan(n, threads)[j].0
                && runs[j].1@ == run_energies(
                energies,
                run_plan(n, threads)[j].0 as int,
                run_plan(n, threads)[j].1 as int,
            ),
        0 <= f < n,
        0 <= m < N_MELS,
        0 <= k < upto <= runs.len(),
        k * ceil_div(n, threads) <= f < (k + 1) * ceil_div(n, threads),
    ensures
        energy(runs.take(upto), f, m, zero) == energies(f, m),
        upto == runs.len() ==> energy(runs, f, m, zero) == energies(f, m),
    decreases upto,
{
    let per = ceil_div(n, threads) as int;
    lemma_ceil_div(n, threads);
    lemma_ceil_div(n, per as nat);
    let part = runs.take(upto);
    let j = upto - 1;
    let run = runs[j];
    assert(part.last() == run);
    assert(part.drop_last() =~= runs.take(upto - 1));
    assert(upto == runs.len() ==> part =~= runs);
    assert((j + 1) * per == j * per + per) by (nonlinear_arith);
    let c = ceil_div(n, per as nat) as int;
    assert(0 <= j * per < n) by (nonlinear_arith)
        requires
            0 <= j < c,
            c * per < n + per,
            per > 0,
    ;
    let plan = run_plan(n, threads)[j];
    assert(plan.0 == j * per);
    assert(plan.1 <= n && plan.1 <= (j + 1) * per && (plan.1 == n || plan.1 == (j + 1) * per));
    assert(run.1@.len() / N_MELS as nat == plan.1 - plan.0);
    if j == k {
        let i = (f - run.0) * N_MELS + m;
        assert(run.0 <= f < plan.1);
        assert(0 <= i < (plan.1 - plan.0) * N_MELS);
        assert(i / 128 == f - run.0 && i % 128 == m);
        assert(run.1@[i] == energies(run.0 + i / N_MELS as int, i % N_MELS as int));
        assert(energy(part, f, m, zero) == run.1@[i]);
    } else {
        assert((k + 1) * per <= j * per) by (nonlinear_arith)
            requires
                k + 1 <= j,
                per > 0,
        ;
        lemma_energy_of_plan(runs, n, threads, energies, zero, f, m, k, upto - 1);
    }
}

/// Whether `runs` are what `threads` threads compute of the frames of
/// `samples`, where `energies` gives the energy of each frame and mel bin of the
/// samples it is framed from.
pub open spec fn computed<T>(
    runs: Seq<(usize, Vec<T>)>,
    samples: Seq<T>,
    zero: T,
    threads: nat,
    energies: spec_fn(Seq<T>, int, int) -> T,
) -> bool {
    let n = frame_count(samples.len());
    let framed = extended(samples, n * HOP_LENGTH as nat, zero);
    let plan = run_plan(n, threads);
    &&& runs.len() == plan.len()
    &&& forall|k: int|
        0 <= k < runs.len() ==> (#[trigger] runs[k]).0 == plan[k].0 && runs[k].1@ == run_energies(
            |f: int, m: int| energies(framed, f, m),
            plan[k].0 as int,
            plan[k].1 as int,
        )
}

/// The spectrogram of a clip is the same on any number of threads, and with any
/// silence behind the clip up to the same number of frames.
pub proof fn law_the_spectrogram_is_that_of_the_sound<T>(
    a: Seq<T>,
    b: Seq<T>,
    zero: T,
    energies: spec_fn(Seq<T>, int, int) -> T,
    threads: nat,
    others: nat,
    runs: Seq<(usize, Vec<T>)>,
    again: Seq<(usize, Vec<T>)>,
    f: int,
    m: int,
)
    requires
        a.len() <= b.len(),
        b.take(a.len() as int) == a,
        forall|i: int| a.len() <= i < b.len() ==> b[i] == zero,
        frame_count(a.len()) == frame_count(b.len()) <= usize::MAX,
        threads > 0,
        others > 0,
        computed(runs, a, zero, threads, energies),
        computed(again, b, zero, others, energies),
        0 <= f < frame_count(a.len()),
        0 <= m < N_MELS,
    ensures
        energy(runs, f, m, zero) == energy(again, f, m, zero),
{
    law_trailing_silence_is_not_heard(a, b, zero);
    let n = frame_count(a.len());
    let framed = extended(a, n * HOP_LENGTH as nat, zero);
    let each = |f: int, m: int| energies(framed, f, m);
    law_threads_do_not_matter(runs, n, threads, each, zero, f, m);
    law_threads_do_not_matter(again, n, others, each, zero, f, m);
}

/// The spectrogram of a clip, cut into the chunks the encoder reads:
/// `(chunks, N_MELS, CHUNK_FRAMES)`, row-major.
#[derive(Debug, Clone)]
pub struct Features<T> {
    pub data: Vec<T>,
    pub chunks: usize,
}

/// The value of the features at index `i`: the spectrogram of `frames` frames
/// is padded to whole chunks with `zero` and its chunks are put first.
pub open spec fn feature<T>(mel: Seq<T>, frames: nat, zero: T, i: int) -> T {
    let t = i % CHUNK_FRAMES as int;
    let m = (i / CHUNK_FRAMES as int) % N_MELS as int;
    let chunk = (i / CHUNK_FRAMES as int) / N_MELS as int;
    let f = chunk * CHUNK_FRAMES + t;
    if f < frames {
        mel[cell(m, f, frames as int)]
    } else {
        zero
    }
}

/// The chunks a spectrogram of `frames` frames is cut into.
pub open spec fn chunk_count(frames: nat) -> nat {
    ceil_div(frames, CHUNK_FRAMES as nat)
}

/// Where the value at `t` of row `row` of the features stands, and that the one
/// it is taken from is there.
proof fn lemma_feature_place(row: int, t: int, frames: int)
    requires
        0 <= row,
        0 <= t < CHUNK_FRAMES,
        0 <= frames,
    ensures
        (row * CHUNK_FRAMES + t) % CHUNK_FRAMES as int == t,
        (row * CHUNK_FRAMES + t) / CHUNK_FRAMES as int == row,
        0 <= (row % N_MELS as int) * frames,
        (row % N_MELS as int) * frames + frames <= N_MELS * frames,
{
    let m = row % N_MELS as int;
    assert(0 <= m * frames && m * frames + frames <= 128 * frames) by (nonlinear_arith)
        requires
            0 <= m < 128,
            0 <= frames,
    ;
}

/// The features of a clip whose spectrogram is `mel`, `(N_MELS, frames)`,
/// row-major.
#[verifier::spinoff_prover]
pub fn extract_features<T: Copy>(mel: &[T], zero: T) -> (res: Features<T>)
    requires
        mel@.len() + N_MELS * CHUNK_FRAMES <= usize::MAX,
    ensures
        res.chunks == chunk_count(mel@.len() / N_MELS as nat),
        res.data@ == Seq::new(
            (res.chunks * N_MELS * CHUNK_FRAMES) as nat,
            |i: int| feature(mel@, mel@.len() / N_MELS as nat, zero, i),
        ),
{
    let frames: usize = mel.len() / N_MELS;
    let chunks: usize = div_ceil(frames, CHUNK_FRAMES);
    proof {
        lemma_ceil_div(frames as nat, CHUNK_FRAMES as nat);
    }
    let mut data: Vec<T> = Vec::new();
    let mut row: usize = 0;
    while row < chunks * N_MELS
        invariant
            row <= chunks * N_MELS,
            frames == mel@.len() / N_MELS as nat,
            chunks * CHUNK_FRAMES < frames + CHUNK_FRAMES,
            mel@.len() + N_MELS * CHUNK_FRAMES <= usize::MAX,
            data@.len() == row * CHUNK_FRAMES,
            forall|i: int|
                0 <= i < data@.len() ==> data@[i] == feature(mel@, frames as nat, zero, i),
        decreases chunks * N_MELS - row,
    {
        let chunk: usize = row / N_MELS;
        let m: usize = row % N_MELS;
        let start: usize = chunk * CHUNK_FRAMES;
        let mut t: usize = 0;
        while t < CHUNK_FRAMES
            invariant
                t <= CHUNK_FRAMES,
                row < chunks * N_MELS,
                chunk == row / N_MELS,
                m == row % N_MELS,
                start == chunk * CHUNK_FRAMES,
                frames == mel@.len() / N_MELS as nat,
                chunks * CHUNK_FRAMES < frames + CHUNK_FRAMES,
                mel@.len() + N_MELS * CHUNK_FRAMES <= usize::MAX,
                data@.len() == row * CHUNK_FRAMES + t,
                forall|i: int|
                    0 <= i < data@.len() ==> data@[i] == feature(mel@, frames as nat, zero, i),
            decreases CHUNK_FRAMES - t,
        {
            let ghost i = data@.len() as int;
            let f: usize = start + t;
            proof {
                lemma_feature_place(row as int, t as int, frames as int);
                assert(i == row * CHUNK_FRAMES + t);
            }
            if f < frames {
                data.push(mel[m * frames + f]);
            } else {
                data.push(zero);
            }
            t = t + 1;
        }
        row = row + 1;
    }
    assert(data@ =~= Seq::new(
        (chunks * N_MELS * CHUNK_FRAMES) as nat,
        |i: int| feature(mel@, mel@.len() / N_MELS as nat, zero, i),
    ));
    Features { data, chunks }
}

/// A clip of `n` whole chunks becomes `n + 1` chunks of features.
pub proof fn law_one_more_chunk_of_features(n: nat)
    ensures
        chunk_count(frame_count(n * CHUNK_SAMPLES as nat)) == n + 1,
        frame_count(n * CHUNK_SAMPLES as nat) == n * CHUNK_FRAMES + PAD_FRAMES,
{
    let frames = n * CHUNK_FRAMES as nat;
    assert((n * CHUNK_SAMPLES as nat) / HOP_LENGTH as nat == frames);
    lemma_ceil_div_unique(frames, PAD_FRAMES as nat, 2 * n);
    lemma_ceil_div_unique(frames + PAD_FRAMES as nat, CHUNK_FRAMES as nat, n + 1);
}

/// The layout is chunk-major: the value of mel bin `m` at frame `t` of chunk
/// `chunk` is the spectrogram's at that frame of the clip, and past the
/// spectrogram's frames it is the padding.
pub proof fn law_features_are_the_spectrogram_cut_into_chunks<T>(
    mel: Seq<T>,
    frames: nat,
    zero: T,
    chunk: int,
    m: int,
    t: int,
)
    requires
        0 <= chunk < chunk_count(frames),
        0 <= m < N_MELS,
        0 <= t < CHUNK_FRAMES,
    ensures
        feature(mel, frames, zero, (chunk * N_MELS + m) * CHUNK_FRAMES + t) == if chunk
            * CHUNK_FRAMES + t < frames {
            mel[cell(m, chunk * CHUNK_FRAMES + t, frames as int)]
        } else {
            zero
        },
{
    let i = (chunk * N_MELS + m) * CHUNK_FRAMES + t;
    assert(i / CHUNK_FRAMES as int == chunk * N_MELS + m);
    assert(i % CHUNK_FRAMES as int == t);
}

/// Padding keeps every sample of a clip where it is, and puts nothing but
/// silence behind the last.
pub proof fn law_padding_keeps_every_sample<T>(audio: Seq<T>, chunk: nat, zero: T, i: int)
    requires
        chunk > 0,
    ensures
        ({
            let padded = extended(audio, round_up(audio.len(), chunk), zero);
            &&& audio.len() <= padded.len() < audio.len() + chunk
            &&& padded.len() % chunk == 0
            &&& 0 <= i < audio.len() ==> padded[i] == audio[i]
            &&& audio.len() <= i < padded.len() ==> padded[i] == zero
        }),
        ({
            let framed = extended(audio, frame_count(audio.len()) * HOP_LENGTH as nat, zero);
            &&& framed.len() == 160 * frame_count(audio.len())
            &&& audio.len() < framed.len()
            &&& 0 <= i < audio.len() ==> framed[i] == audio[i]
            &&& audio.len() <= i < framed.len() ==> framed[i] == zero
        }),
{
    law_rounding_up_is_to_the_next_multiple(audio.len(), chunk);
    lemma_frame_count(audio.len());
}

/// The spectrogram has a frame for every 160 samples, rounded up to whole half
/// chunks of 1500, and one half chunk more.
pub proof fn law_a_frame_every_hop_and_a_half_chunk_more(samples: nat)
    ensures
        frame_count(samples) % 1500 == 0,
        samples / 160 + 1500 <= frame_count(samples) < samples / 160 + 3000,
{
    lemma_ceil_div(samples / 160, 1500);
}

/// A table of numbers reads back as they were written, four bytes each and the
/// lowest first.
pub proof fn law_words_read_back_as_written(bytes: Seq<u8>, numbers: Seq<u32>)
    requires
        bytes.len() == 4 * numbers.len(),
        forall|i: int|
            0 <= i < numbers.len() ==> {
                let n = #[trigger] numbers[i] as int;
                &&& bytes[4 * i] == n % 256
                &&& bytes[4 * i + 1] == (n / 256) % 256
                &&& bytes[4 * i + 2] == (n / 65_536) % 256
                &&& bytes[4 * i + 3] == n / 16_777_216
            },
    ensures
        words(bytes) == numbers,
{
    assert forall|i: int| 0 <= i < numbers.len() implies #[trigger] words(bytes)[i]
        == numbers[i] by {
        let n = numbers[i] as int;
        assert(n == n % 256 + 0x100 * ((n / 256) % 256) + 0x1_0000 * ((n / 65_536) % 256)
            + 0x100_0000 * (n / 16_777_216));
    }
    assert(words(bytes) =~= numbers);
}

/// The runs of frames follow each other without a gap from the first frame to
/// the last, none is empty, and there are no more of them than threads.
pub proof fn law_runs_follow_each_other(n: nat, threads: nat, k: int)
    requires
        0 < n <= usize::MAX,
        threads > 0,
        0 <= k < run_plan(n, threads).len(),
    ensures
        ({
            let plan = run_plan(n, threads);
            &&& plan[0].0 == 0
            &&& plan[plan.len() - 1].1 == n
            &&& plan[k].0 < plan[k].1 <= n
            &&& k + 1 < plan.len() ==> plan[k + 1].0 == plan[k].1
            &&& plan.len() <= threads
        }),
{
    let per = ceil_div(n, threads) as int;
    let plan = run_plan(n, threads);
    let c = plan.len() as int;
    lemma_ceil_div(n, threads);
    lemma_ceil_div(n, per as nat);
    assert(c <= threads) by (nonlinear_arith)
        requires
            c * per < n + per,
            n <= per * threads,
            per > 0,
    ;
    assert(0 <= k * per < n) by (nonlinear_arith)
        requires
            0 <= k < c,
            c * per < n + per,
            per > 0,
    ;
    assert((k + 1) * per == k * per + per) by (nonlinear_arith);
    if k + 1 < c {
        assert((k + 1) * per < n) by (nonlinear_arith)
            requires
                k + 1 < c,
                c * per < n + per,
                per > 0,
        ;
    }
    assert(0 * per == 0);
    let last = c - 1;
    assert((last + 1) * per >= n);
}

/// The energy of a frame is the one the last run that covers it has for it.
pub proof fn law_a_frame_has_the_energy_of_its_run<T>(
    before: Seq<(usize, Vec<T>)>,
    run: (usize, Vec<T>),
    f: int,
    m: int,
    zero: T,
)
    ensures
        energy(Seq::empty(), f, m, zero) == zero,
        energy(before.push(run), f, m, zero) == if run.0 <= f && f < run.0 + run.1@.len() / 128 {
            run.1@[(f - run.0) * 128 + m]
        } else {
            energy(before, f, m, zero)
        },
{
    let runs = before.push(run);
    assert(runs.last() == run);
    assert(runs.drop_last() =~= before);
}

/// The spectrogram holds the frames of a mel bin one behind the other.
pub proof fn law_bins_are_rows(m: int, f: int, n: int)
    ensures
        cell(m, f, n) == m * n + f,
{
}

/// Chunks are of 3000 frames, and the last one holds at least one.
pub proof fn law_chunks_are_of_3000_frames(frames: nat)
    ensures
        frames <= 3000 * chunk_count(frames) < frames + 3000,
{
    lemma_ceil_div(frames, CHUNK_FRAMES as nat);
}

/// The features, value by value: mel bin `m` of frame `t` of chunk `chunk` is
/// the spectrogram's at frame `chunk * 3000 + t`, and padding past its frames.
pub proof fn law_features_value_by_value<T>(
    mel: Seq<T>,
    frames: nat,
    zero: T,
    chunk: int,
    m: int,
    t: int,
)
    requires
        0 <= chunk,
        0 <= m < 128,
        0 <= t < 3000,
    ensures
        feature(mel, frames, zero, (chunk * 128 + m) * 3000 + t) == if chunk * 3000 + t < frames {
            mel[m * frames + chunk * 3000 + t]
        } else {
            zero
        },
{
    let i = (chunk * 128 + m) * 3000 + t;
    assert(i / 3000 == chunk * 128 + m);
    assert(i % 3000 == t);
}

} // verus!
