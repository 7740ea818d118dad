//! The system-audio sidecar's stream: its header, and the decoding of the
//! raw little-endian 32-bit samples that follow it, whatever the chunk
//! boundaries.
use vstd::prelude::*;

use crate::paths::{join, join_path, parent, path_parent};
use crate::text::{opt_str_view, opt_string_view, str_eq};

verus! {

/// The JSON line the sidecar writes before the samples.
pub struct StreamHeader {
    pub sample_rate: u32,
    pub channels: u16,
    pub format: String,
}

/// The only sample format the sidecar is asked for.
pub const SUPPORTED_FORMAT: &'static str = "f32";

pub open spec fn header_error(format: Seq<char>) -> Seq<char> {
    "unsupported sidecar format: "@ + format + " (expected f32)"@
}

/// Accepts a header only when its samples are 32-bit floats.
pub fn check_header(header: &StreamHeader) -> (r: Result<(), String>)
    ensures
        r is Ok <==> header.format@ == SUPPORTED_FORMAT@,
        r matches Err(m) ==> m@ == header_error(header.format@),
{
    if str_eq(header.format.as_str(), SUPPORTED_FORMAT) {
        Ok(())
    } else {
        let mut m = String::from_str("unsupported sidecar format: ");
        m.append(header.format.as_str());
        m.append(" (expected f32)");
        Err(m)
    }
}

/// The 32-bit word stored little-endian at bytes `4i .. 4i + 4`.
pub open spec fn le_word(b: Seq<u8>, i: int) -> u32 {
    (b[4 * i] + 256 * b[4 * i + 1] + 65536 * b[4 * i + 2] + 16777216 * b[4 * i + 3]) as u32
}

/// The complete little-endian words at the start of `b`.
pub open spec fn le_words(b: Seq<u8>) -> Seq<u32> {
    Seq::new(b.len() / 4, |i: int| le_word(b, i))
}

/// Decodes raw bytes into 32-bit words, carrying an incomplete word over to
/// the next chunk.
pub struct PcmFramer {
    leftover: Vec<u8>,
}

impl View for PcmFramer {
    type V = Seq<u8>;

    closed spec fn view(&self) -> Seq<u8> {
        self.leftover@
    }
}

pub open spec fn feed_spec(leftover: Seq<u8>, bytes: Seq<u8>) -> (Seq<u8>, Seq<u32>) {
    let all = leftover + bytes;
    (all.skip((all.len() / 4 * 4) as int), le_words(all))
}

proof fn lemma_words_prefix(p: Seq<u8>, q: Seq<u8>)
    requires
        p.len() % 4 == 0,
    ensures
        le_words(p + q) == le_words(p) + le_words(q),
{
    let pq = p + q;
    assert forall|i: int| 0 <= i < le_words(pq).len() implies le_words(pq)[i] == (le_words(p)
        + le_words(q))[i] by {
        if i < p.len() / 4 {
            assert(pq[4 * i] == p[4 * i]);
            assert(pq[4 * i + 1] == p[4 * i + 1]);
            assert(pq[4 * i + 2] == p[4 * i + 2]);
            assert(pq[4 * i + 3] == p[4 * i + 3]);
        } else {
            let j = i - p.len() / 4;
            assert(4 * i == p.len() + 4 * j);
            assert(pq[4 * i] == q[4 * j]);
            assert(pq[4 * i + 1] == q[4 * j + 1]);
            assert(pq[4 * i + 2] == q[4 * j + 2]);
            assert(pq[4 * i + 3] == q[4 * j + 3]);
        }
    }
    assert(le_words(pq) =~= le_words(p) + le_words(q));
}

proof fn lemma_words_drop_tail(b: Seq<u8>)
    ensures
        le_words(b) == le_words(b.take((b.len() / 4 * 4) as int)),
{
    let t = b.take((b.len() / 4 * 4) as int);
    assert forall|i: int| 0 <= i < le_words(b).len() implies le_words(b)[i] == le_words(t)[i] by {
        assert(t[4 * i] == b[4 * i]);
        assert(t[4 * i + 1] == b[4 * i + 1]);
        assert(t[4 * i + 2] == b[4 * i + 2]);
        assert(t[4 * i + 3] == b[4 * i + 3]);
    }
    assert(le_words(b) =~= le_words(t));
}

/// Splitting the byte stream into chunks anywhere does not change the
/// words decoded: feeding `a` and then `b` gives the words of `a + b` and
/// keeps the same incomplete tail.
pub proof fn lemma_feed_chunk_independent(l: Seq<u8>, a: Seq<u8>, b: Seq<u8>)
    ensures
        ({
            let (l1, w1) = feed_spec(l, a);
            let (l2, w2) = feed_spec(l1, b);
            let (l3, w3) = feed_spec(l, a + b);
            &&& w1 + w2 == w3
            &&& l2 == l3
        }),
{
    let all = l + a;
    let k = (all.len() / 4 * 4) as int;
    let p = all.take(k);
    let r = all.skip(k);
    assert(all =~= p + r);
    lemma_words_drop_tail(all);
    assert(l + (a + b) =~= p + (r + b));
    lemma_words_prefix(p, r + b);
    let rb = r + b;
    let big = p + rb;
    assert(big.len() / 4 * 4 == k + rb.len() / 4 * 4) by {
        assert(big.len() == k + rb.len());
        assert(k % 4 == 0);
    }
    assert(big.skip((big.len() / 4 * 4) as int) =~= rb.skip((rb.len() / 4 * 4) as int));
}

impl PcmFramer {
    pub fn new() -> (r: Self)
        ensures
            r@.len() == 0,
    {
        PcmFramer { leftover: Vec::new() }
    }

    /// Bytes of an incomplete word waiting for the next chunk.
    pub open spec fn pending(&self) -> Seq<u8> {
        self@
    }

    /// Decodes every complete word of the pending bytes followed by
    /// `bytes`; fewer than four bytes stay pending.
    pub fn feed(&mut self, bytes: &[u8]) -> (words: Vec<u32>)
        requires
            old(self)@.len() < 4,
        ensures
            (final(self)@, words@) == feed_spec(old(self)@, bytes@),
            final(self)@.len() < 4,
    {
        let mut all: Vec<u8> = Vec::new();
        let mut i: usize = 0;
        while i < self.leftover.len()
            invariant
                i <= self.leftover.len(),
                self.leftover.len() < 4,
                all@ == self.leftover@.take(i as int),
            decreases self.leftover.len() - i,
        {
            all.push(self.leftover[i]);
            i += 1;
            assert(all@ =~= self.leftover@.take(i as int));
        }
        assert(self.leftover@.take(self.leftover.len() as int) =~= self.leftover@);
        let mut j: usize = 0;
        while j < bytes.len()
            invariant
                j <= bytes.len(),
                all@ == self.leftover@ + bytes@.take(j as int),
                self.leftover.len() < 4,
            decreases bytes.len() - j,
        {
            all.push(bytes[j]);
            j += 1;
            assert(all@ =~= self.leftover@ + bytes@.take(j as int));
        }
        assert(bytes@.take(bytes.len() as int) =~= bytes@);
        let n = all.len() / 4;
        let mut words: Vec<u32> = Vec::new();
        let mut w: usize = 0;
        while w < n
            invariant
                n == all.len() / 4,
                w <= n,
                words@ == Seq::new(w as nat, |i: int| le_word(all@, i)),
            decreases n - w,
        {
            let b0 = all[4 * w] as u32;
            let b1 = all[4 * w + 1] as u32;
            let b2 = all[4 * w + 2] as u32;
            let b3 = all[4 * w + 3] as u32;
            words.push(b0 + b1 * 256 + b2 * 65536 + b3 * 16777216);
            w += 1;
            assert(words@ =~= Seq::new(w as nat, |i: int| le_word(all@, i)));
        }
        let mut rest: Vec<u8> = Vec::new();
        let mut r: usize = n * 4;
        while r < all.len()
            invariant
                n * 4 <= r <= all.len(),
                all.len() - n * 4 < 4,
                rest@ == all@.subrange(n * 4, r as int),
            decreases all.len() - r,
        {
            rest.push(all[r]);
            r += 1;
            assert(rest@ =~= all@.subrange(n * 4, r as int));
        }
        assert(all@.subrange(n * 4, all.len() as int) =~= all@.skip(n * 4));
        self.leftover = rest;
        words
    }
}

/// The names the sidecar binary may have next to the app's executable.
pub open spec fn sidecar_names() -> Seq<Seq<char>> {
    seq![
        "sckit_capture"@,
        "sckit_capture-aarch64-apple-darwin"@,
        "sckit_capture-x86_64-apple-darwin"@,
    ]
}

/// Where a development build may find the sidecar, relative to the crate
/// and, with a `src-tauri/` prefix, to the working directory.
pub open spec fn sidecar_dev_paths() -> Seq<Seq<char>> {
    seq![
        "binaries/sckit_capture-aarch64-apple-darwin"@,
        "binaries/sckit_capture-x86_64-apple-darwin"@,
        "binaries/sckit_capture"@,
        "swift-helper/.build/release/sckit_capture"@,
        "swift-helper/.build/debug/sckit_capture"@,
    ]
}

pub open spec fn joined_all(base: Seq<char>, rels: Seq<Seq<char>>) -> Seq<Seq<char>> {
    rels.map_values(|r: Seq<char>| join(base, r))
}

pub open spec fn cwd_candidates(cwd: Seq<char>, rels: Seq<Seq<char>>) -> Seq<Seq<char>>
    decreases rels.len(),
{
    if rels.len() == 0 {
        Seq::empty()
    } else {
        let r = "src-tauri/"@ + rels.last();
        cwd_candidates(cwd, rels.drop_last()) + seq![join(cwd, r)] + match parent(cwd) {
            Some(p) => seq![join(p, r)],
            None => Seq::empty(),
        }
    }
}

/// Every place the sidecar is looked for, in the order it is looked for:
/// next to the executable, in the bundle's resources, next to the crate (in
/// development builds), then under the working directory and its parent
/// (when the working directory is known).
pub open spec fn sidecar_candidates_of(
    exe_dir: Option<Seq<char>>,
    resource: Option<Seq<char>>,
    crate_dir: Option<Seq<char>>,
    cwd: Option<Seq<char>>,
) -> Seq<Seq<char>> {
    let a = match exe_dir {
        Some(d) => joined_all(d, sidecar_names()),
        None => Seq::empty(),
    };
    let b = match resource {
        Some(r) => seq![r],
        None => Seq::empty(),
    };
    let c = match crate_dir {
        Some(m) => joined_all(m, sidecar_dev_paths()),
        None => Seq::empty(),
    };
    let d = match cwd {
        Some(w) => cwd_candidates(w, sidecar_dev_paths()),
        None => Seq::empty(),
    };
    a + b + c + d
}

fn literal_list(dev: bool) -> (r: Vec<&'static str>)
    ensures
        r@.map_values(|s: &str| s@) == if dev { sidecar_dev_paths() } else { sidecar_names() },
{
    let mut v: Vec<&'static str> = Vec::new();
    if dev {
        v.push("binaries/sckit_capture-aarch64-apple-darwin");
        v.push("binaries/sckit_capture-x86_64-apple-darwin");
        v.push("binaries/sckit_capture");
        v.push("swift-helper/.build/release/sckit_capture");
        v.push("swift-helper/.build/debug/sckit_capture");
    } else {
        v.push("sckit_capture");
        v.push("sckit_capture-aarch64-apple-darwin");
        v.push("sckit_capture-x86_64-apple-darwin");
    }
    assert(v@.map_values(|s: &str| s@) =~= if dev {
        sidecar_dev_paths()
    } else {
        sidecar_names()
    });
    v
}

fn push_joined(out: &mut Vec<String>, base: &str, dev: bool)
    ensures
        final(out)@.map_values(|s: String| s@) == old(out)@.map_values(|s: String| s@)
            + joined_all(base@, if dev { sidecar_dev_paths() } else { sidecar_names() }),
{
    let rels = literal_list(dev);
    let ghost want = joined_all(base@, if dev { sidecar_dev_paths() } else { sidecar_names() });
    let mut i: usize = 0;
    while i < rels.len()
        invariant
            i <= rels.len(),
            rels@.map_values(|s: &str| s@) == if dev { sidecar_dev_paths() } else { sidecar_names() },
            want == joined_all(base@, if dev { sidecar_dev_paths() } else { sidecar_names() }),
            out@.map_values(|s: String| s@) == old(out)@.map_values(|s: String| s@) + want.take(
                i as int,
            ),
        decreases rels.len() - i,
    {
        let p = join_path(base, rels[i]);
        assert(rels@.map_values(|s: &str| s@)[i as int] == rels@[i as int]@);
        let ghost prev = out@;
        out.push(p);
        proof {
            assert(out@.map_values(|s: String| s@) =~= prev.map_values(|s: String| s@).push(p@));
            assert(want.take(i + 1) =~= want.take(i as int).push(want[i as int]));
            assert(want[i as int] == p@);
        }
        i += 1;
    }
    assert(want.take(rels.len() as int) =~= want);
}

fn push_cwd_candidates(out: &mut Vec<String>, cwd: &str)
    requires
        cwd@.len() < isize::MAX,
    ensures
        final(out)@.map_values(|s: String| s@) == old(out)@.map_values(|s: String| s@)
            + cwd_candidates(cwd@, sidecar_dev_paths()),
{
    let ghost after_c = out@.map_values(|s: String| s@);
    let rels = literal_list(true);
    let par = path_parent(cwd);
    let mut i: usize = 0;
    while i < rels.len()
        invariant
            i <= rels.len(),
            rels@.map_values(|s: &str| s@) == sidecar_dev_paths(),
            match par {
                Some(p) => parent(cwd@) == Some(p@),
                None => parent(cwd@).is_none(),
            },
            out@.map_values(|s: String| s@) == after_c + cwd_candidates(
                cwd@,
                sidecar_dev_paths().take(i as int),
            ),
        decreases rels.len() - i,
    {
        let mut rel = String::from_str("src-tauri/");
        rel.append(rels[i]);
        assert(rels@.map_values(|s: &str| s@)[i as int] == rels@[i as int]@);
        assert(sidecar_dev_paths().take(i + 1).drop_last() =~= sidecar_dev_paths().take(i as int));
        assert(sidecar_dev_paths().take(i + 1).last() == rels@[i as int]@);
        let ghost prev = out@;
        let j1 = join_path(cwd, rel.as_str());
        out.push(j1);
        assert(out@.map_values(|s: String| s@) =~= prev.map_values(|s: String| s@).push(j1@));
        match &par {
            Some(p) => {
                let ghost mid = out@;
                let j2 = join_path(p.as_str(), rel.as_str());
                out.push(j2);
                assert(out@.map_values(|s: String| s@) =~= mid.map_values(|s: String| s@).push(
                    j2@,
                ));
            },
            None => {},
        }
        proof {
            let r = "src-tauri/"@ + sidecar_dev_paths().take(i + 1).last();
            assert(rel@ == r);
            let tail = match parent(cwd@) {
                Some(pp) => seq![join(pp, r)],
                None => Seq::<Seq<char>>::empty(),
            };
            assert(cwd_candidates(cwd@, sidecar_dev_paths().take(i + 1)) == cwd_candidates(
                cwd@,
                sidecar_dev_paths().take(i as int),
            ) + seq![join(cwd@, r)] + tail);
            assert(out@.map_values(|s: String| s@) =~= after_c + cwd_candidates(
                cwd@,
                sidecar_dev_paths().take(i as int),
            ) + seq![join(cwd@, r)] + tail);
        }
        i += 1;
    }
    assert(sidecar_dev_paths().take(5) =~= sidecar_dev_paths());
}

/// Lists every place the sidecar is looked for, in order.
pub fn sidecar_candidates(
    exe_dir: Option<&str>,
    resource: Option<String>,
    crate_dir: Option<&str>,
    cwd: Option<&str>,
) -> (r: Vec<String>)
    requires
        cwd matches Some(w) ==> w@.len() < isize::MAX,
    ensures
        r@.map_values(|s: String| s@) == sidecar_candidates_of(
            opt_str_view(exe_dir),
            opt_string_view(resource),
            opt_str_view(crate_dir),
            opt_str_view(cwd),
        ),
{
    let mut out: Vec<String> = Vec::new();
    let ghost rs = opt_string_view(resource);
    assert(out@.map_values(|s: String| s@) =~= Seq::<Seq<char>>::empty());
    if let Some(d) = exe_dir {
        push_joined(&mut out, d, false);
    }
    let ghost after_a = out@.map_values(|s: String| s@);
    if let Some(res) = resource {
        out.push(res);
    }
    let ghost after_b = out@.map_values(|s: String| s@);
    assert(after_b =~= after_a + match rs {
        Some(r) => seq![r],
        None => Seq::<Seq<char>>::empty(),
    });
    if let Some(m) = crate_dir {
        push_joined(&mut out, m, true);
    }
    let ghost after_c = out@.map_values(|s: String| s@);
    if let Some(w) = cwd {
        push_cwd_candidates(&mut out, w);
    } else {
        assert(after_c + Seq::<Seq<char>>::empty() =~= after_c);
    }
    out
}

pub open spec fn not_found_message() -> Seq<char> {
    "sckit_capture sidecar not found. Build it via `cd src-tauri/swift-helper && swift build -c release`."@
}

/// Picks the first candidate that exists; `exists[i]` tells whether
/// `candidates[i]` is there.
pub fn pick_sidecar(candidates: &Vec<String>, exists: &Vec<bool>) -> (r: Result<String, String>)
    requires
        candidates.len() == exists.len(),
    ensures
        match r {
            Ok(p) => exists|i: int|
                0 <= i < candidates.len() && exists@[i] && p@ == candidates@[i]@ && forall|j: int|
                    0 <= j < i ==> !exists@[j],
            Err(m) => m@ == not_found_message() && forall|j: int|
                0 <= j < candidates.len() ==> !exists@[j],
        },
{
    let mut i: usize = 0;
    while i < candidates.len()
        invariant
            candidates.len() == exists.len(),
            i <= candidates.len(),
            forall|j: int| 0 <= j < i ==> !exists@[j],
        decreases candidates.len() - i,
    {
        if exists[i] {
            return Ok(candidates[i].clone());
        }
        i += 1;
    }
    Err(String::from_str(
        "sckit_capture sidecar not found. Build it via `cd src-tauri/swift-helper && swift build -c release`.",
    ))
}

} // verus!
