//! What the RTTY receiver publishes, and how an uncollected observation is
//! folded into the one replacing it.

use vstd::prelude::*;

verus! {

/// The most channel pairs one scope frame carries.
pub const SCOPE_POINTS_LIMIT: usize = 8192;

/// One decode path a receive column runs.
#[derive(Clone, Copy, Debug, PartialEq, Eq, Structural)]
pub enum DecodePath {
    /// The resonator pair and the majority-vote framing machine.
    Resonator,
}

impl Default for DecodePath {
    fn default() -> (path: Self)
        ensures
            path is Resonator,
    {
        DecodePath::Resonator
    }
}

impl DecodePath {
    /// Every decode path, in the order the columns are drawn.
    pub const ALL: [DecodePath; 1] = [DecodePath::Resonator];

    /// The message key the column header names this path with.
    pub fn label_key(self) -> (key: &'static str)
        ensures
            key@ == "path-resonator"@,
    {
        match self {
            DecodePath::Resonator => "path-resonator",
        }
    }
}

/// How many channel pairs a second the scope tap keeps.
pub const MONITOR_POINT_RATE_HZ: u32 = 4000;

/// How many pairs the tap passes over for each one kept, at `sample_rate_hz`:
/// the rate over the kept rate, rounded up, and never less than one.
pub fn monitor_decimation(sample_rate_hz: u32) -> (every: usize)
    ensures
        every as int == if sample_rate_hz as int <= MONITOR_POINT_RATE_HZ as int {
            1int
        } else {
            (sample_rate_hz as int + MONITOR_POINT_RATE_HZ as int - 1) / MONITOR_POINT_RATE_HZ as int
        },
        sample_rate_hz >= MONITOR_POINT_RATE_HZ ==> sample_rate_hz <= every * MONITOR_POINT_RATE_HZ
            && every * MONITOR_POINT_RATE_HZ <= 2 * sample_rate_hz,
{
    let quotient = sample_rate_hz / MONITOR_POINT_RATE_HZ;
    let every = if sample_rate_hz % MONITOR_POINT_RATE_HZ == 0 {
        quotient
    } else {
        quotient + 1
    };
    let every = if every < 1 {
        1
    } else {
        every
    };
    proof {
        let r = sample_rate_hz as int;
        let k = MONITOR_POINT_RATE_HZ as int;
        let q = quotient as int;
        let e = every as int;
        assert(r == q * k + r % k) by (nonlinear_arith)
            requires
                k > 0,
                q == r / k,
        ;
        if r >= k {
            assert(q >= 1) by (nonlinear_arith)
                requires
                    k > 0,
                    r >= k,
                    q == r / k,
            ;
            assert(r <= e * k && e * k <= 2 * r) by (nonlinear_arith)
                requires
                    r == q * k + r % k,
                    0 <= r % k < k,
                    q >= 1,
                    r % k == 0 ==> e == q,
                    r % k != 0 ==> e == q + 1,
            ;
        }
    }
    every as usize
}

/// The spectrum bin a column of the band picture reads, of `bins`, when the
/// band is drawn `columns` wide: the bins spread evenly across the columns,
/// the last bin standing for any column past them.
pub fn bin_at(column: usize, columns: usize, bins: usize) -> (bin: usize)
    requires
        columns > 0,
        bins > 0,
        column * bins <= usize::MAX,
    ensures
        bin as int == if (column * bins) / (columns as int) < bins as int {
            (column * bins) / (columns as int)
        } else {
            bins - 1
        },
        bin < bins,
{
    let spread = column * bins / columns;
    if spread < bins {
        spread
    } else {
        bins - 1
    }
}

/// The pairs of a scope trace after an uncollected frame's are put in front
/// of the newer ones, oldest dropped past the limit.
pub open spec fn merged_points<T>(points: Seq<T>, earlier: Seq<T>) -> Seq<T> {
    if earlier.len() == 0 {
        points
    } else {
        let all = earlier + points;
        if all.len() > SCOPE_POINTS_LIMIT {
            all.skip(all.len() - SCOPE_POINTS_LIMIT)
        } else {
            all
        }
    }
}

/// Puts the pairs an uncollected frame carried in front of the newer ones.
///
/// A trace is read as one line, so two frames that arrived between draws
/// belong to it in the order they were tapped; what does not fit is the
/// oldest.
pub fn merge_points<T>(points: Vec<T>, earlier: Vec<T>) -> (merged: Vec<T>)
    ensures
        merged@ == merged_points(points@, earlier@),
{
    if earlier.len() == 0 {
        return points;
    }
    let mut all = earlier;
    let mut newer = points;
    let ghost first = all@;
    let ghost second = newer@;
    all.append(&mut newer);
    if all.len() <= SCOPE_POINTS_LIMIT {
        return all;
    }
    let excess = all.len() - SCOPE_POINTS_LIMIT;
    let kept = all.split_off(excess);
    proof {
        assert(kept@ =~= (first + second).skip(excess as int));
    }
    kept
}

/// The texts of each column after an uncollected snapshot's are put in
/// front of the newer ones.
pub open spec fn merged_texts(texts: Seq<Seq<char>>, earlier: Seq<Seq<char>>) -> Seq<Seq<char>> {
    if texts.len() != earlier.len() {
        texts
    } else {
        Seq::new(texts.len(), |i: int| earlier[i] + texts[i])
    }
}

/// Folds the text an uncollected snapshot carried into the one replacing it.
///
/// Text cannot be replaced: it is what was decoded during that block and
/// nothing will say it again. Snapshots of different column counts cannot be
/// lined up, and are left as they are.
pub fn merge_texts(texts: &mut Vec<String>, earlier: Vec<String>)
    ensures
        crate::transmit::texts(final(texts)@) == merged_texts(
            crate::transmit::texts(old(texts)@),
            crate::transmit::texts(earlier@),
        ),
{
    if texts.len() != earlier.len() {
        return;
    }
    let length = texts.len();
    let mut merged: Vec<String> = Vec::new();
    let mut index: usize = 0;
    while index < length
        invariant
            length == texts@.len(),
            length == earlier@.len(),
            texts@ == old(texts)@,
            index <= length,
            merged@.len() == index,
            forall|i: int| 0 <= i < index ==> #[trigger] merged@[i]@ == earlier@[i]@ + texts@[i]@,
        decreases length - index,
    {
        let mut joined = earlier[index].clone();
        joined.append(texts[index].as_str());
        merged.push(joined);
        index += 1;
    }
    *texts = merged;
    proof {
        assert(crate::transmit::texts(texts@) =~= merged_texts(
            crate::transmit::texts(old(texts)@),
            crate::transmit::texts(earlier@),
        ));
    }
}

} // verus!
