//! Crossing detection: the points where two crate "strands" interact through
//! shared trait bounds, wrapper nesting or marker-trait mismatches.

use vstd::prelude::*;
use crate::strutil;

verus! {

/// Three-valued logic for trait bounds.
#[derive(Debug, Clone, Copy, PartialEq, Eq, Structural)]
pub enum Ternary {
    Yes,
    No,
    Unknown,
}

impl Default for Ternary {
    /// An unstated bound is unknown.
    fn default() -> (r: Self)
        ensures
            r == Ternary::Unknown,
    {
        Ternary::Unknown
    }
}

impl Ternary {
    /// Lifts a definite answer.
    pub fn from_bool(b: bool) -> (r: Self)
        ensures
            r == if b {
                Ternary::Yes
            } else {
                Ternary::No
            },
    {
        if b {
            Ternary::Yes
        } else {
            Ternary::No
        }
    }

    /// Two bounds conflict exactly when one says yes and the other says no.
    pub fn conflicts(&self, other: &Ternary) -> (r: bool)
        ensures
            r == ((*self == Ternary::Yes && *other == Ternary::No) || (*self == Ternary::No
                && *other == Ternary::Yes)),
    {
        match (self, other) {
            (Ternary::Yes, Ternary::No) => true,
            (Ternary::No, Ternary::Yes) => true,
            _ => false,
        }
    }
}

/// The "charge" a type carries through the crate graph: the marker traits
/// that affect composition.
#[derive(Debug, Clone)]
pub struct TypeCharge {
    /// Send bound status.
    pub send: Ternary,
    /// Sync bound status.
    pub sync: Ternary,
    /// Unpin bound status.
    pub unpin: Ternary,
    /// Has a `'static` lifetime.
    pub is_static: bool,
    /// Is `Sized`.
    pub sized: bool,
}

impl Default for TypeCharge {
    /// A charge with nothing known.
    fn default() -> (r: Self)
        ensures
            r.send == Ternary::Unknown,
            r.sync == Ternary::Unknown,
            r.unpin == Ternary::Unknown,
            !r.is_static,
            !r.sized,
    {
        TypeCharge {
            send: Ternary::Unknown,
            sync: Ternary::Unknown,
            unpin: Ternary::Unknown,
            is_static: false,
            sized: false,
        }
    }
}

/// A crossing point where two crate strands interact.
#[derive(Debug, Clone)]
pub struct Crossing {
    /// Source location, as `file:line`.
    pub location: String,
    /// Index of the first crate in the braid word.
    pub sigma_i: usize,
    /// Index of the second crate in the braid word.
    pub sigma_j: usize,
    /// Kind of crossing.
    pub kind: CrossingKind,
    /// Whether this crossing involves `Pin` projection.
    pub involves_pin: bool,
}

/// The kind of interaction at a crossing.
#[derive(Debug, Clone)]
pub enum CrossingKind {
    /// The crates expect different impls of the same trait.
    TraitConflict { trait_name: String, bound_a: String, bound_b: String },
    /// Marker trait mismatch.
    MarkerConflict { send_mismatch: bool, sync_mismatch: bool, unpin_mismatch: bool },
    /// Type wrapper nesting whose order matters.
    WrapperNesting { outer: String, inner: String, can_commute: bool },
    /// Lifetime bound intersection.
    LifetimeIntersection { lifetime_a: String, lifetime_b: String },
    /// An unspecified interaction.
    Generic { description: String },
}

/// The names of the mismatching markers, joined by commas.
pub open spec fn marker_names(s: bool, y: bool, u: bool) -> Seq<char> {
    if s && y && u {
        "Send, Sync, Unpin"@
    } else if s && y {
        "Send, Sync"@
    } else if s && u {
        "Send, Unpin"@
    } else if s {
        "Send"@
    } else if y && u {
        "Sync, Unpin"@
    } else if y {
        "Sync"@
    } else if u {
        "Unpin"@
    } else {
        ""@
    }
}

impl Crossing {
    /// What the description of a crossing says.
    pub open spec fn describe_spec(self) -> Seq<char> {
        match self.kind {
            CrossingKind::TraitConflict { trait_name, bound_a, bound_b } => "Trait conflict: "@
                + trait_name@ + " requires "@ + bound_a@ + " but "@ + trait_name@ + " expects "@
                + bound_b@,
            CrossingKind::MarkerConflict { send_mismatch, sync_mismatch, unpin_mismatch } =>
                "Marker trait conflict: "@ + marker_names(
                send_mismatch,
                sync_mismatch,
                unpin_mismatch,
            ) + " mismatch"@,
            CrossingKind::WrapperNesting { outer, inner, can_commute } => if can_commute {
                "Wrapper nesting: "@ + outer@ + "<"@ + inner@ + "> (commutable)"@
            } else {
                "Wrapper nesting: "@ + outer@ + "<"@ + inner@ + "> (order matters!)"@
            },
            CrossingKind::LifetimeIntersection { lifetime_a, lifetime_b } =>
                "Lifetime intersection: "@ + lifetime_a@ + " vs "@ + lifetime_b@,
            CrossingKind::Generic { description } => description@,
        }
    }

    /// Creates a trait conflict crossing between strands `sigma_i` and
    /// `sigma_j`.
    pub fn trait_conflict(
        location: String,
        sigma_i: usize,
        sigma_j: usize,
        trait_name: String,
        bound_a: String,
        bound_b: String,
    ) -> (r: Self)
        ensures
            r.location == location,
            r.sigma_i == sigma_i,
            r.sigma_j == sigma_j,
            r.kind matches CrossingKind::TraitConflict { trait_name: t, bound_a: a, bound_b: b }
                && t == trait_name && a == bound_a && b == bound_b,
            !r.involves_pin,
    {
        Crossing {
            location,
            sigma_i,
            sigma_j,
            kind: CrossingKind::TraitConflict { trait_name, bound_a, bound_b },
            involves_pin: false,
        }
    }

    /// Creates a marker conflict crossing; nothing comes back when no marker
    /// mismatches. The crossing involves `Pin` exactly when `Unpin`
    /// mismatches.
    pub fn marker_conflict(
        location: String,
        sigma_i: usize,
        sigma_j: usize,
        charge_a: &TypeCharge,
        charge_b: &TypeCharge,
    ) -> (r: Option<Self>)
        ensures
            ({
                let sm = (charge_a.send == Ternary::Yes && charge_b.send == Ternary::No) || (
                charge_a.send == Ternary::No && charge_b.send == Ternary::Yes);
                let ym = (charge_a.sync == Ternary::Yes && charge_b.sync == Ternary::No) || (
                charge_a.sync == Ternary::No && charge_b.sync == Ternary::Yes);
                let um = (charge_a.unpin == Ternary::Yes && charge_b.unpin == Ternary::No) || (
                charge_a.unpin == Ternary::No && charge_b.unpin == Ternary::Yes);
                match r {
                    Some(c) => {
                        &&& (sm || ym || um)
                        &&& c.location == location
                        &&& c.sigma_i == sigma_i && c.sigma_j == sigma_j
                        &&& c.kind matches CrossingKind::MarkerConflict {
                            send_mismatch,
                            sync_mismatch,
                            unpin_mismatch,
                        } && send_mismatch == sm && sync_mismatch == ym && unpin_mismatch == um
                        &&& c.involves_pin == um
                    },
                    None => !sm && !ym && !um,
                }
            }),
    {
        let send_mismatch = charge_a.send.conflicts(&charge_b.send);
        let sync_mismatch = charge_a.sync.conflicts(&charge_b.sync);
        let unpin_mismatch = charge_a.unpin.conflicts(&charge_b.unpin);
        if !send_mismatch && !sync_mismatch && !unpin_mismatch {
            return None;
        }
        Some(
            Crossing {
                location,
                sigma_i,
                sigma_j,
                kind: CrossingKind::MarkerConflict { send_mismatch, sync_mismatch, unpin_mismatch },
                involves_pin: unpin_mismatch,
            },
        )
    }

    /// Creates a wrapper nesting crossing.
    pub fn wrapper_nesting(
        location: String,
        sigma_i: usize,
        sigma_j: usize,
        outer: String,
        inner: String,
        can_commute: bool,
    ) -> (r: Self)
        ensures
            r.location == location,
            r.sigma_i == sigma_i,
            r.sigma_j == sigma_j,
            r.kind matches CrossingKind::WrapperNesting { outer: o, inner: i, can_commute: c }
                && o == outer && i == inner && c == can_commute,
            !r.involves_pin,
    {
        Crossing {
            location,
            sigma_i,
            sigma_j,
            kind: CrossingKind::WrapperNesting { outer, inner, can_commute },
            involves_pin: false,
        }
    }

    /// Writes the crossing out for a human reader.
    pub fn describe(&self) -> (r: String)
        ensures
            r@ == self.describe_spec(),
    {
        proof {
            reveal_strlit("Trait conflict: ");
            reveal_strlit(" requires ");
            reveal_strlit(" but ");
            reveal_strlit(" expects ");
            reveal_strlit("Marker trait conflict: ");
            reveal_strlit(" mismatch");
            reveal_strlit("Wrapper nesting: ");
            reveal_strlit("<");
            reveal_strlit("> (commutable)");
            reveal_strlit("> (order matters!)");
            reveal_strlit("Lifetime intersection: ");
            reveal_strlit(" vs ");
        }
        match &self.kind {
            CrossingKind::TraitConflict { trait_name, bound_a, bound_b } => {
                let mut out = "Trait conflict: ".to_owned();
                out.append(trait_name.as_str());
                out.append(" requires ");
                out.append(bound_a.as_str());
                out.append(" but ");
                out.append(trait_name.as_str());
                out.append(" expects ");
                out.append(bound_b.as_str());
                out
            },
            CrossingKind::MarkerConflict { send_mismatch, sync_mismatch, unpin_mismatch } => {
                let names: &str = if *send_mismatch && *sync_mismatch && *unpin_mismatch {
                    "Send, Sync, Unpin"
                } else if *send_mismatch && *sync_mismatch {
                    "Send, Sync"
                } else if *send_mismatch && *unpin_mismatch {
                    "Send, Unpin"
                } else if *send_mismatch {
                    "Send"
                } else if *sync_mismatch && *unpin_mismatch {
                    "Sync, Unpin"
                } else if *sync_mismatch {
                    "Sync"
                } else if *unpin_mismatch {
                    "Unpin"
                } else {
                    ""
                };
                let mut out = "Marker trait conflict: ".to_owned();
                out.append(names);
                out.append(" mismatch");
                out
            },
            CrossingKind::WrapperNesting { outer, inner, can_commute } => {
                let mut out = "Wrapper nesting: ".to_owned();
                out.append(outer.as_str());
                out.append("<");
                out.append(inner.as_str());
                if *can_commute {
                    out.append("> (commutable)");
                } else {
                    out.append("> (order matters!)");
                }
                out
            },
            CrossingKind::LifetimeIntersection { lifetime_a, lifetime_b } => {
                let mut out = "Lifetime intersection: ".to_owned();
                out.append(lifetime_a.as_str());
                out.append(" vs ");
                out.append(lifetime_b.as_str());
                out
            },
            CrossingKind::Generic { description } => description.clone(),
        }
    }
}

/// Trait bounds extracted from a crate's API surface.
#[derive(Debug, Clone)]
pub struct ExtractedBounds {
    /// Trait bounds, by full path.
    pub trait_bounds: Vec<String>,
    /// Required marker traits.
    pub markers: TypeCharge,
    /// Common wrapper types used.
    pub wrappers: Vec<String>,
}

impl Default for ExtractedBounds {
    /// No bounds extracted yet.
    fn default() -> (r: Self)
        ensures
            r.trait_bounds@.len() == 0,
            r.wrappers@.len() == 0,
            r.markers.send == Ternary::Unknown,
            r.markers.sync == Ternary::Unknown,
            r.markers.unpin == Ternary::Unknown,
    {
        ExtractedBounds {
            trait_bounds: Vec::new(),
            markers: TypeCharge {
                send: Ternary::Unknown,
                sync: Ternary::Unknown,
                unpin: Ternary::Unknown,
                is_static: false,
                sized: false,
            },
            wrappers: Vec::new(),
        }
    }
}

/// The bound names an asynchronous capability.
pub open spec fn async_bound(t: Seq<char>) -> bool {
    strutil::contains_seq(t, "Future"@) || strutil::contains_seq(t, "AsyncRead"@)
        || strutil::contains_seq(t, "AsyncWrite"@) || strutil::contains_seq(t, "Stream"@)
}

/// Two bound paths clash: same simple name, different full path.
pub open spec fn bounds_clash(a: Seq<char>, b: Seq<char>) -> bool {
    strutil::simple_name_of(a) == strutil::simple_name_of(b) && a != b
}

impl ExtractedBounds {
    /// Whether any bound names an asynchronous capability.
    pub fn is_async(&self) -> (r: bool)
        ensures
            r == exists|i: int|
                0 <= i < self.trait_bounds@.len() && async_bound(
                    (#[trigger] self.trait_bounds@[i])@,
                ),
    {
        proof {
            reveal_strlit("Future");
            reveal_strlit("AsyncRead");
            reveal_strlit("AsyncWrite");
            reveal_strlit("Stream");
        }
        let mut k: usize = 0;
        while k < self.trait_bounds.len()
            invariant
                k <= self.trait_bounds@.len(),
                forall|i: int| 0 <= i < k ==> !async_bound((#[trigger] self.trait_bounds@[i])@),
            decreases self.trait_bounds@.len() - k,
        {
            proof {
                reveal_strlit("Future");
                reveal_strlit("AsyncRead");
                reveal_strlit("AsyncWrite");
                reveal_strlit("Stream");
            }
            let t = self.trait_bounds[k].as_str();
            if strutil::contains(t, "Future") || strutil::contains(t, "AsyncRead")
                || strutil::contains(t, "AsyncWrite") || strutil::contains(t, "Stream") {
                return true;
            }
            k += 1;
        }
        false
    }

    /// Whether the markers demand thread-safety.
    pub fn is_sync_heavy(&self) -> (r: bool)
        ensures
            r == (self.markers.send == Ternary::Yes || self.markers.sync == Ternary::Yes),
    {
        match (self.markers.send, self.markers.sync) {
            (Ternary::Yes, _) => true,
            (_, Ternary::Yes) => true,
            _ => false,
        }
    }

    /// Finds the conflicting bounds against another set: for every bound
    /// here whose simple name some different bound over there shares, a trait
    /// conflict; after those, a marker conflict when the charges mismatch.
    /// Something comes back exactly when a clash or a marker mismatch exists.
    pub fn find_conflicts(&self, other: &ExtractedBounds) -> (out: Vec<Crossing>)
        ensures
            forall|i: int|
                0 <= i < out@.len() ==> crossing_sound(#[trigger] out@[i], *self, *other)
                    && (out@[i].kind matches CrossingKind::TraitConflict { .. }
                    || out@[i].kind matches CrossingKind::MarkerConflict { .. }),
            (out@.len() > 0) == ((exists|i: int, j: int|
                0 <= i < self.trait_bounds@.len() && 0 <= j < other.trait_bounds@.len()
                    && bounds_clash(
                    (#[trigger] self.trait_bounds@[i])@,
                    (#[trigger] other.trait_bounds@[j])@,
                )) || marker_mismatch(self.markers, other.markers)),
    {
        let mut out: Vec<Crossing> = Vec::new();
        let mut k: usize = 0;
        while k < self.trait_bounds.len()
            invariant
                k <= self.trait_bounds@.len(),
                forall|i: int|
                    0 <= i < out@.len() ==> crossing_sound(#[trigger] out@[i], *self, *other)
                        && (out@[i].kind matches CrossingKind::TraitConflict { .. }
                        || out@[i].kind matches CrossingKind::MarkerConflict { .. }),
                (out@.len() > 0) == exists|i: int, j: int|
                    0 <= i < k && 0 <= j < other.trait_bounds@.len() && bounds_clash(
                        (#[trigger] self.trait_bounds@[i])@,
                        (#[trigger] other.trait_bounds@[j])@,
                    ),
            decreases self.trait_bounds@.len() - k,
        {
            let bound = &self.trait_bounds[k];
            let base = strutil::simple_name(bound.as_str());
            let mut m: usize = 0;
            let mut hit: Option<usize> = None;
            while m < other.trait_bounds.len()
                invariant
                    k < self.trait_bounds@.len(),
                    base@ == strutil::simple_name_of(self.trait_bounds@[k as int]@),
                    bound == &self.trait_bounds@[k as int],
                    match hit {
                        Some(h) => h < other.trait_bounds@.len() && bounds_clash(
                            self.trait_bounds@[k as int]@,
                            other.trait_bounds@[h as int]@,
                        ),
                        None => forall|j: int|
                            0 <= j < m ==> !bounds_clash(
                                self.trait_bounds@[k as int]@,
                                (#[trigger] other.trait_bounds@[j])@,
                            ),
                    },
                    m <= other.trait_bounds@.len(),
                decreases other.trait_bounds@.len() - m,
            {
                if hit.is_none() {
                    let ob = &other.trait_bounds[m];
                    let obase = strutil::simple_name(ob.as_str());
                    if strutil::str_eq(obase.as_str(), base.as_str()) && !strutil::str_eq(
                        ob.as_str(),
                        bound.as_str(),
                    ) {
                        hit = Some(m);
                    }
                }
                m += 1;
            }
            match hit {
                Some(h) => {
                    let c = Crossing::trait_conflict(
                        "unknown".to_owned(),
                        0,
                        1,
                        base,
                        bound.clone(),
                        other.trait_bounds[h].clone(),
                    );
                    proof {
                        assert(crossing_sound(c, *self, *other));
                    }
                    out.push(c);
                },
                None => {},
            }
            k += 1;
        }
        let marker = Crossing::marker_conflict(
            "unknown".to_owned(),
            0,
            1,
            &self.markers,
            &other.markers,
        );
        match marker {
            Some(c) => {
                proof {
                    assert(crossing_sound(c, *self, *other));
                }
                out.push(c);
            },
            None => {},
        }
        out
    }
}

/// The marker charges mismatch on some bound.
pub open spec fn marker_mismatch(a: TypeCharge, b: TypeCharge) -> bool {
    ||| ((a.send == Ternary::Yes && b.send == Ternary::No) || (a.send == Ternary::No && b.send
        == Ternary::Yes))
    ||| ((a.sync == Ternary::Yes && b.sync == Ternary::No) || (a.sync == Ternary::No && b.sync
        == Ternary::Yes))
    ||| ((a.unpin == Ternary::Yes && b.unpin == Ternary::No) || (a.unpin == Ternary::No && b.unpin
        == Ternary::Yes))
}

/// A crossing that truly stems from the two bound sets: a trait conflict
/// pairs a bound of each side under one simple name, a marker conflict
/// reports the real mismatches.
pub open spec fn crossing_sound(c: Crossing, a: ExtractedBounds, b: ExtractedBounds) -> bool {
    match c.kind {
        CrossingKind::TraitConflict { trait_name, bound_a, bound_b } => exists|i: int, j: int|
            0 <= i < a.trait_bounds@.len() && 0 <= j < b.trait_bounds@.len() && (
            #[trigger] a.trait_bounds@[i])@ == bound_a@ && (#[trigger] b.trait_bounds@[j])@
                == bound_b@ && bounds_clash(bound_a@, bound_b@) && trait_name@
                == strutil::simple_name_of(bound_a@),
        CrossingKind::MarkerConflict { send_mismatch, sync_mismatch, unpin_mismatch } => {
            &&& marker_mismatch(a.markers, b.markers)
            &&& send_mismatch == ((a.markers.send == Ternary::Yes && b.markers.send == Ternary::No)
                || (a.markers.send == Ternary::No && b.markers.send == Ternary::Yes))
            &&& sync_mismatch == ((a.markers.sync == Ternary::Yes && b.markers.sync == Ternary::No)
                || (a.markers.sync == Ternary::No && b.markers.sync == Ternary::Yes))
            &&& unpin_mismatch == ((a.markers.unpin == Ternary::Yes && b.markers.unpin
                == Ternary::No) || (a.markers.unpin == Ternary::No && b.markers.unpin
                == Ternary::Yes))
        },
        _ => true,
    }
}

/// A crossing the heuristic may report: a sound bound conflict, a
/// conservative nesting crossing over one outer wrapper of each side, or the
/// pin-involving note that both sides are asynchronous.
pub open spec fn heuristic_sound(c: Crossing, a: ExtractedBounds, b: ExtractedBounds) -> bool {
    match c.kind {
        CrossingKind::WrapperNesting { outer, inner, can_commute } => {
            &&& !can_commute
            &&& exists|i: int|
                0 <= i < a.wrappers@.len() && (#[trigger] a.wrappers@[i])@ == outer@
                    && outer_wrapper_spec(outer@)
            &&& exists|j: int|
                0 <= j < b.wrappers@.len() && (#[trigger] b.wrappers@[j])@ == inner@
                    && outer_wrapper_spec(inner@)
        },
        CrossingKind::Generic { description } => {
            &&& c.involves_pin
            &&& exists|i: int|
                0 <= i < a.trait_bounds@.len() && async_bound((#[trigger] a.trait_bounds@[i])@)
            &&& exists|i: int|
                0 <= i < b.trait_bounds@.len() && async_bound((#[trigger] b.trait_bounds@[i])@)
        },
        CrossingKind::LifetimeIntersection { .. } => false,
        _ => crossing_sound(c, a, b),
    }
}

/// A type name that reads as an outer wrapper.
pub open spec fn outer_wrapper_spec(t: Seq<char>) -> bool {
    ||| strutil::contains_seq(t, "Wrapper"@)
    ||| strutil::contains_seq(t, "Adapter"@)
    ||| strutil::contains_seq(t, "Guard"@)
    ||| strutil::contains_seq(t, "Lock"@)
    ||| strutil::contains_seq(t, "Ref"@)
    ||| strutil::contains_seq(t, "Box"@)
    ||| strutil::contains_seq(t, "Arc"@)
    ||| strutil::contains_seq(t, "Rc"@)
}

/// Whether a type name suggests an outer wrapper.
pub fn is_outer_wrapper(target_name: &str) -> (r: bool)
    ensures
        r == outer_wrapper_spec(target_name@),
{
    proof {
        reveal_strlit("Wrapper");
        reveal_strlit("Adapter");
        reveal_strlit("Guard");
        reveal_strlit("Lock");
        reveal_strlit("Ref");
        reveal_strlit("Box");
        reveal_strlit("Arc");
        reveal_strlit("Rc");
    }
    strutil::contains(target_name, "Wrapper") || strutil::contains(target_name, "Adapter")
        || strutil::contains(target_name, "Guard") || strutil::contains(target_name, "Lock")
        || strutil::contains(target_name, "Ref") || strutil::contains(target_name, "Box")
        || strutil::contains(target_name, "Arc") || strutil::contains(target_name, "Rc")
}

/// The number of outer-wrapper names among the first `k` wrappers.
pub open spec fn count_outer(ws: Seq<String>, k: int) -> int
    decreases k,
{
    if k <= 0 || k > ws.len() {
        0
    } else {
        count_outer(ws, k - 1) + (if outer_wrapper_spec(ws[k - 1]@) {
            1int
        } else {
            0
        })
    }
}

/// The number of nesting crossings among the first `k` entries.
pub open spec fn nesting_count(cs: Seq<Crossing>, k: int) -> int
    decreases k,
{
    if k <= 0 || k > cs.len() {
        0
    } else {
        nesting_count(cs, k - 1) + (if cs[k - 1].kind matches CrossingKind::WrapperNesting {
            ..
        } {
            1int
        } else {
            0
        })
    }
}

/// Some entry is the conservative nesting crossing of this wrapper pair.
pub open spec fn has_nesting(cs: Seq<Crossing>, o: Seq<char>, inn: Seq<char>) -> bool {
    exists|m: int|
        0 <= m < cs.len() && ((#[trigger] cs[m]).kind matches CrossingKind::WrapperNesting {
            outer,
            inner,
            can_commute,
        } && outer@ == o && inner@ == inn && !can_commute)
}

proof fn lemma_nesting_count_none(cs: Seq<Crossing>, k: int)
    requires
        0 <= k <= cs.len(),
        forall|i: int|
            0 <= i < k ==> !((#[trigger] cs[i]).kind matches CrossingKind::WrapperNesting { .. }),
    ensures
        nesting_count(cs, k) == 0,
    decreases k,
{
    if k > 0 {
        lemma_nesting_count_none(cs, k - 1);
    }
}

proof fn lemma_nesting_count_congr(a: Seq<Crossing>, b: Seq<Crossing>, k: int)
    requires
        0 <= k <= a.len(),
        k <= b.len(),
        forall|i: int| 0 <= i < k ==> a[i] == b[i],
    ensures
        nesting_count(a, k) == nesting_count(b, k),
    decreases k,
{
    if k > 0 {
        lemma_nesting_count_congr(a, b, k - 1);
    }
}

proof fn lemma_nesting_count_push(cs: Seq<Crossing>, c: Crossing)
    ensures
        nesting_count(cs.push(c), cs.len() as int + 1) == nesting_count(cs, cs.len() as int) + (
        if c.kind matches CrossingKind::WrapperNesting { .. } {
            1int
        } else {
            0
        }),
{
    lemma_nesting_count_congr(cs.push(c), cs, cs.len() as int);
    assert(cs.push(c)[cs.len() as int] == c);
}

proof fn lemma_has_nesting_push(cs: Seq<Crossing>, c: Crossing, o: Seq<char>, inn: Seq<char>)
    requires
        has_nesting(cs, o, inn),
    ensures
        has_nesting(cs.push(c), o, inn),
{
    let m = choose|m: int|
        0 <= m < cs.len() && ((#[trigger] cs[m]).kind matches CrossingKind::WrapperNesting {
            outer,
            inner,
            can_commute,
        } && outer@ == o && inner@ == inn && !can_commute);
    assert(cs.push(c)[m] == cs[m]);
}

/// Detects crossings between two crates' public APIs: their bound conflicts
/// first; then exactly one conservative, non-commuting nesting crossing for
/// every pair of outer-wrapper names, one side each; and last exactly one
/// generic crossing — pin-involving — precisely when both sides are
/// asynchronous. A simplified heuristic; a full analysis would require type
/// flow.
pub fn detect_crossings_heuristic(
    crate_a_name: &str,
    crate_a_bounds: &ExtractedBounds,
    crate_b_name: &str,
    crate_b_bounds: &ExtractedBounds,
) -> (out: Vec<Crossing>)
    ensures
        forall|i: int|
            0 <= i < out@.len() ==> heuristic_sound(
                #[trigger] out@[i],
                *crate_a_bounds,
                *crate_b_bounds,
            ),
        forall|i: int, j: int|
            0 <= i < crate_a_bounds.wrappers@.len() && 0 <= j < crate_b_bounds.wrappers@.len()
                && outer_wrapper_spec((#[trigger] crate_a_bounds.wrappers@[i])@)
                && outer_wrapper_spec((#[trigger] crate_b_bounds.wrappers@[j])@)
                ==> has_nesting(
                out@,
                crate_a_bounds.wrappers@[i]@,
                crate_b_bounds.wrappers@[j]@,
            ),
        nesting_count(out@, out@.len() as int) == count_outer(
            crate_a_bounds.wrappers@,
            crate_a_bounds.wrappers@.len() as int,
        ) * count_outer(crate_b_bounds.wrappers@, crate_b_bounds.wrappers@.len() as int),
        ((exists|i: int|
            0 <= i < crate_a_bounds.trait_bounds@.len() && async_bound(
                (#[trigger] crate_a_bounds.trait_bounds@[i])@,
            )) && (exists|i: int|
            0 <= i < crate_b_bounds.trait_bounds@.len() && async_bound(
                (#[trigger] crate_b_bounds.trait_bounds@[i])@,
            ))) <==> (out@.len() > 0 && (out@.last().kind matches CrossingKind::Generic { .. })
            && out@.last().involves_pin),
        forall|m: int|
            0 <= m < out@.len() && ((#[trigger] out@[m]).kind matches CrossingKind::Generic {
                ..
            }) ==> m == out@.len() - 1,
{
    proof {
        reveal_strlit("+");
        reveal_strlit(" composition");
        reveal_strlit(" async composition");
        reveal_strlit("Both crates are async-heavy - potential runtime conflict");
    }
    let ghost btot = count_outer(crate_b_bounds.wrappers@, crate_b_bounds.wrappers@.len() as int);
    let mut out = crate_a_bounds.find_conflicts(crate_b_bounds);
    proof {
        lemma_nesting_count_none(out@, out@.len() as int);
    }
    let mut i: usize = 0;
    while i < crate_a_bounds.wrappers.len()
        invariant
            i <= crate_a_bounds.wrappers@.len(),
            btot == count_outer(
                crate_b_bounds.wrappers@,
                crate_b_bounds.wrappers@.len() as int,
            ),
            forall|m: int|
                0 <= m < out@.len() ==> heuristic_sound(
                    #[trigger] out@[m],
                    *crate_a_bounds,
                    *crate_b_bounds,
                ),
            forall|m: int|
                0 <= m < out@.len() ==> !((#[trigger] out@[m]).kind
                    matches CrossingKind::Generic { .. }),
            nesting_count(out@, out@.len() as int) == count_outer(
                crate_a_bounds.wrappers@,
                i as int,
            ) * btot,
            forall|i2: int, j2: int|
                0 <= i2 < i && 0 <= j2 < crate_b_bounds.wrappers@.len() && outer_wrapper_spec(
                    (#[trigger] crate_a_bounds.wrappers@[i2])@,
                ) && outer_wrapper_spec((#[trigger] crate_b_bounds.wrappers@[j2])@)
                    ==> has_nesting(
                    out@,
                    crate_a_bounds.wrappers@[i2]@,
                    crate_b_bounds.wrappers@[j2]@,
                ),
        decreases crate_a_bounds.wrappers@.len() - i,
    {
        let wa = &crate_a_bounds.wrappers[i];
        if is_outer_wrapper(wa.as_str()) {
            let mut j: usize = 0;
            while j < crate_b_bounds.wrappers.len()
                invariant
                    i < crate_a_bounds.wrappers@.len(),
                    outer_wrapper_spec(crate_a_bounds.wrappers@[i as int]@),
                    btot == count_outer(
                        crate_b_bounds.wrappers@,
                        crate_b_bounds.wrappers@.len() as int,
                    ),
                    j <= crate_b_bounds.wrappers@.len(),
                    forall|m: int|
                        0 <= m < out@.len() ==> heuristic_sound(
                            #[trigger] out@[m],
                            *crate_a_bounds,
                            *crate_b_bounds,
                        ),
                    forall|m: int|
                        0 <= m < out@.len() ==> !((#[trigger] out@[m]).kind
                            matches CrossingKind::Generic { .. }),
                    nesting_count(out@, out@.len() as int) == count_outer(
                        crate_a_bounds.wrappers@,
                        i as int,
                    ) * btot + count_outer(crate_b_bounds.wrappers@, j as int),
                    forall|i2: int, j2: int|
                        0 <= i2 < i && 0 <= j2 < crate_b_bounds.wrappers@.len()
                            && outer_wrapper_spec((#[trigger] crate_a_bounds.wrappers@[i2])@)
                            && outer_wrapper_spec((#[trigger] crate_b_bounds.wrappers@[j2])@)
                            ==> has_nesting(
                            out@,
                            crate_a_bounds.wrappers@[i2]@,
                            crate_b_bounds.wrappers@[j2]@,
                        ),
                    forall|j2: int|
                        0 <= j2 < j && outer_wrapper_spec(
                            (#[trigger] crate_b_bounds.wrappers@[j2])@,
                        ) ==> has_nesting(
                            out@,
                            crate_a_bounds.wrappers@[i as int]@,
                            crate_b_bounds.wrappers@[j2]@,
                        ),
                decreases crate_b_bounds.wrappers@.len() - j,
            {
                let wb = &crate_b_bounds.wrappers[j];
                if is_outer_wrapper(wb.as_str()) {
                    let mut loc = crate_a_name.to_owned();
                    loc.append("+");
                    loc.append(crate_b_name);
                    loc.append(" composition");
                    let ghost before = out@;
                    out.push(
                        Crossing::wrapper_nesting(
                            loc,
                            0,
                            1,
                            crate_a_bounds.wrappers[i].clone(),
                            crate_b_bounds.wrappers[j].clone(),
                            false,
                        ),
                    );
                    proof {
                        let c = out@.last();
                        assert(out@ == before.push(c));
                        assert(crate_a_bounds.wrappers@[i as int]@ == c.kind->WrapperNesting_outer@);
                        assert(crate_b_bounds.wrappers@[j as int]@ == c.kind->WrapperNesting_inner@);
                        assert(heuristic_sound(c, *crate_a_bounds, *crate_b_bounds));
                        lemma_nesting_count_push(before, c);
                        assert(has_nesting(
                            out@,
                            crate_a_bounds.wrappers@[i as int]@,
                            crate_b_bounds.wrappers@[j as int]@,
                        )) by {
                            assert(out@[out@.len() - 1] == c);
                        }
                        assert forall|i2: int, j2: int|
                            0 <= i2 < i && 0 <= j2 < crate_b_bounds.wrappers@.len()
                                && outer_wrapper_spec((#[trigger] crate_a_bounds.wrappers@[i2])@)
                                && outer_wrapper_spec(
                                (#[trigger] crate_b_bounds.wrappers@[j2])@,
                            ) implies has_nesting(
                            out@,
                            crate_a_bounds.wrappers@[i2]@,
                            crate_b_bounds.wrappers@[j2]@,
                        ) by {
                            lemma_has_nesting_push(
                                before,
                                c,
                                crate_a_bounds.wrappers@[i2]@,
                                crate_b_bounds.wrappers@[j2]@,
                            );
                        }
                        assert forall|j2: int|
                            0 <= j2 < j + 1 && outer_wrapper_spec(
                                (#[trigger] crate_b_bounds.wrappers@[j2])@,
                            ) implies has_nesting(
                            out@,
                            crate_a_bounds.wrappers@[i as int]@,
                            crate_b_bounds.wrappers@[j2]@,
                        ) by {
                            if j2 < j {
                                lemma_has_nesting_push(
                                    before,
                                    c,
                                    crate_a_bounds.wrappers@[i as int]@,
                                    crate_b_bounds.wrappers@[j2]@,
                                );
                            }
                        }
                    }
                }
                j += 1;
            }
            proof {
                assert(count_outer(crate_a_bounds.wrappers@, i + 1) == count_outer(
                    crate_a_bounds.wrappers@,
                    i as int,
                ) + 1);
                assert((count_outer(crate_a_bounds.wrappers@, i as int) + 1) * btot
                    == count_outer(crate_a_bounds.wrappers@, i as int) * btot + btot)
                    by (nonlinear_arith);
            }
        } else {
            proof {
                assert(count_outer(crate_a_bounds.wrappers@, i + 1) == count_outer(
                    crate_a_bounds.wrappers@,
                    i as int,
                ));
            }
        }
        i += 1;
    }
    if crate_a_bounds.is_async() && crate_b_bounds.is_async() {
        let mut loc = crate_a_name.to_owned();
        loc.append("+");
        loc.append(crate_b_name);
        loc.append(" async composition");
        let ghost before = out@;
        out.push(
            Crossing {
                location: loc,
                sigma_i: 0,
                sigma_j: 1,
                kind: CrossingKind::Generic {
                    description: "Both crates are async-heavy - potential runtime conflict"
                        .to_owned(),
                },
                involves_pin: true,
            },
        );
        proof {
            let c = out@.last();
            assert(out@ == before.push(c));
            lemma_nesting_count_push(before, c);
            assert forall|i2: int, j2: int|
                0 <= i2 < crate_a_bounds.wrappers@.len() && 0 <= j2
                    < crate_b_bounds.wrappers@.len() && outer_wrapper_spec(
                    (#[trigger] crate_a_bounds.wrappers@[i2])@,
                ) && outer_wrapper_spec((#[trigger] crate_b_bounds.wrappers@[j2])@)
                    implies has_nesting(
                out@,
                crate_a_bounds.wrappers@[i2]@,
                crate_b_bounds.wrappers@[j2]@,
            ) by {
                lemma_has_nesting_push(
                    before,
                    c,
                    crate_a_bounds.wrappers@[i2]@,
                    crate_b_bounds.wrappers@[j2]@,
                );
            }
        }
    }
    out
}

/// An essential, non-resolvable conflict between two profile dimensions.
#[derive(Debug, Clone)]
pub struct ManifoldConflict {
    /// First conflicting dimension index.
    pub dim_a: usize,
    /// Second conflicting dimension index.
    pub dim_b: usize,
    /// A human-readable description of the conflict.
    pub description: String,
}

impl ManifoldConflict {
    /// Creates a conflict between two dimensions.
    pub fn new(dim_a: usize, dim_b: usize, description: String) -> (r: Self)
        ensures
            r.dim_a == dim_a,
            r.dim_b == dim_b,
            r.description == description,
    {
        ManifoldConflict { dim_a, dim_b, description }
    }

    /// What the re-projection suggestion says for each dimension pair.
    pub open spec fn suggestion_spec(self) -> Seq<char> {
        if (self.dim_a == 1 && self.dim_b == 6) || (self.dim_a == 6 && self.dim_b == 1) {
            "Shift from thread-local to atomic: Rc → Arc, RefCell → Mutex"@
        } else if (self.dim_a == 2 && self.dim_b == 3) || (self.dim_a == 3 && self.dim_b == 2) {
            "Isolate unsafe code from async boundaries, use spawn_blocking"@
        } else if self.dim_a == 3 && self.dim_b == 3 {
            "Feature-gate one runtime, or use async-compat bridge"@
        } else if (self.dim_a == 1 && self.dim_b == 4) || (self.dim_a == 4 && self.dim_b == 1) {
            "Use Arc<T> for shared heap data across threads"@
        } else {
            "Dimensions e"@ + strutil::dec_spec(self.dim_a as nat) + " and e"@ + strutil::dec_spec(
                self.dim_b as nat,
            ) + " conflict - manual intervention required"@
        }
    }

    /// Suggests a re-projection for the conflict.
    pub fn suggest_reproject(&self) -> (r: String)
        ensures
            r@ == self.suggestion_spec(),
    {
        proof {
            reveal_strlit("Shift from thread-local to atomic: Rc → Arc, RefCell → Mutex");
            reveal_strlit("Isolate unsafe code from async boundaries, use spawn_blocking");
            reveal_strlit("Feature-gate one runtime, or use async-compat bridge");
            reveal_strlit("Use Arc<T> for shared heap data across threads");
            reveal_strlit("Dimensions e");
            reveal_strlit(" and e");
            reveal_strlit(" conflict - manual intervention required");
        }
        let a = self.dim_a;
        let b = self.dim_b;
        if (a == 1 && b == 6) || (a == 6 && b == 1) {
            "Shift from thread-local to atomic: Rc → Arc, RefCell → Mutex".to_owned()
        } else if (a == 2 && b == 3) || (a == 3 && b == 2) {
            "Isolate unsafe code from async boundaries, use spawn_blocking".to_owned()
        } else if a == 3 && b == 3 {
            "Feature-gate one runtime, or use async-compat bridge".to_owned()
        } else if (a == 1 && b == 4) || (a == 4 && b == 1) {
            "Use Arc<T> for shared heap data across threads".to_owned()
        } else {
            let mut out = "Dimensions e".to_owned();
            out.append(strutil::u64_to_string(a as u64).as_str());
            out.append(" and e");
            out.append(strutil::u64_to_string(b as u64).as_str());
            out.append(" conflict - manual intervention required");
            out
        }
    }
}

} // verus!
