//! Where data goes: tiers of storage, roles of slabs, and what fails together.
use crate::drive::DeviceId;
use crate::text;
use vstd::prelude::*;

verus! {

/// How fast a device is, from the fastest tier to the slowest.
#[derive(Debug, Clone, Copy, PartialEq, Eq, Hash, Structural)]
pub enum StorageTier {
    Hot,
    Warm,
    Cool,
    Cold,
}

impl StorageTier {
    /// The number a tier is written with.
    pub open spec fn spec_code(self) -> u8 {
        match self {
            StorageTier::Hot => 0,
            StorageTier::Warm => 1,
            StorageTier::Cool => 2,
            StorageTier::Cold => 3,
        }
    }

    /// The tier a number stands for; any number past the known ones is the
    /// slowest tier.
    pub open spec fn spec_from_code(code: u8) -> Self {
        if code == 0 {
            StorageTier::Hot
        } else if code == 1 {
            StorageTier::Warm
        } else if code == 2 {
            StorageTier::Cool
        } else {
            StorageTier::Cold
        }
    }

    /// The number this tier is written with.
    pub fn code(self) -> (c: u8)
        ensures
            c == self.spec_code(),
    {
        match self {
            StorageTier::Hot => 0,
            StorageTier::Warm => 1,
            StorageTier::Cool => 2,
            StorageTier::Cold => 3,
        }
    }

    /// The tier `code` stands for.
    pub fn from_code(code: u8) -> (t: Self)
        ensures
            t == Self::spec_from_code(code),
    {
        match code {
            0 => StorageTier::Hot,
            1 => StorageTier::Warm,
            2 => StorageTier::Cool,
            _ => StorageTier::Cold,
        }
    }
}

/// What a slab is for.
#[derive(Debug, Clone, Copy, PartialEq, Eq, Hash, Structural)]
pub enum SlabRole {
    System,
    Data,
}

impl Default for SlabRole {
    fn default() -> (r: Self)
        ensures
            r == SlabRole::System,
    {
        SlabRole::System
    }
}

/// One rung of a failure domain: what it is, and which one.
#[derive(Debug)]
pub struct Label {
    pub rung: String,
    pub value: String,
}

/// A rung and its value.
pub type LabelView = (Seq<char>, Seq<char>);

/// What fails together: the rungs something sits on, the innermost first.
#[derive(Debug)]
pub struct FailureDomain {
    labels: Vec<Label>,
}

impl View for FailureDomain {
    type V = Seq<LabelView>;

    closed spec fn view(&self) -> Seq<LabelView> {
        Seq::new(self.labels@.len(), |i: int| (self.labels@[i].rung@, self.labels@[i].value@))
    }
}

/// The value at a rung, where it is known.
pub open spec fn value_at(d: Seq<LabelView>, rung: Seq<char>) -> Option<Seq<char>>
    decreases d.len(),
{
    if d.len() == 0 {
        None
    } else if d[0].0 == rung {
        Some(d[0].1)
    } else {
        value_at(d.drop_first(), rung)
    }
}

/// Whether two domains are the same at a rung: both know it, and agree.
pub open spec fn same_domain(a: Seq<LabelView>, b: Seq<LabelView>, rung: Seq<char>) -> bool {
    value_at(a, rung) is Some && value_at(a, rung) == value_at(b, rung)
}

/// The labels of `own`, then those among the first `n` of `outer` at rungs
/// that `own` says nothing of.
pub open spec fn merged(own: Seq<LabelView>, outer: Seq<LabelView>, n: nat) -> Seq<LabelView>
    decreases n,
{
    if n == 0 {
        own
    } else {
        let before = merged(own, outer, (n - 1) as nat);
        if value_at(own, outer[n - 1].0) is Some {
            before
        } else {
            before.push(outer[n - 1])
        }
    }
}

/// The domain of a device by itself.
pub open spec fn device_domain(id: DeviceId) -> Seq<LabelView> {
    seq![("drive"@, id.serial@)]
}

impl FailureDomain {
    /// A domain nothing is known of.
    pub fn new() -> (d: Self)
        ensures
            d@.len() == 0,
    {
        FailureDomain { labels: Vec::new() }
    }

    /// The domain with one rung more, outside all others.
    pub fn with(self, rung: &str, value: &str) -> (d: Self)
        ensures
            d@ == self@.push((rung@, value@)),
    {
        let mut labels = self.labels;
        labels.push(Label { rung: rung.to_owned(), value: value.to_owned() });
        let d = FailureDomain { labels };
        assert(d@ =~= self@.push((rung@, value@)));
        d
    }

    /// The domain of a device by itself: the drive it is.
    pub fn from_device(id: &DeviceId) -> (d: Self)
        ensures
            d@ == device_domain(*id),
    {
        let d = Self::new().with("drive", &id.serial);
        assert(d@ =~= device_domain(*id));
        d
    }

    /// The same domain again.
    pub fn copied(&self) -> (d: Self)
        ensures
            d@ == self@,
    {
        let d = self.merged_under(&Self::new());
        assert(d@ =~= self@);
        d
    }

    /// Whether nothing is known.
    pub fn is_empty(&self) -> (yes: bool)
        ensures
            yes == (self@.len() == 0),
    {
        self.labels.len() == 0
    }

    /// Where the label of a rung stands.
    fn find(&self, rung: &str) -> (r: Option<usize>)
        ensures
            match r {
                Some(i) => i < self@.len() && value_at(self@, rung@) == Some(self@[i as int].1),
                None => value_at(self@, rung@) is None,
            },
    {
        let mut i: usize = 0;
        let ghost all = self@;
        assert(all.subrange(0, all.len() as int) =~= all);
        while i < self.labels.len()
            invariant
                i <= self.labels@.len(),
                all == self@,
                value_at(all, rung@) == value_at(all.subrange(i as int, all.len() as int), rung@),
            decreases self.labels@.len() - i,
        {
            let ghost rest = all.subrange(i as int, all.len() as int);
            assert(rest[0] == all[i as int]);
            if text::same_text(&self.labels[i].rung, rung) {
                return Some(i);
            }
            assert(rest.drop_first() =~= all.subrange(i + 1, all.len() as int));
            i = i + 1;
        }
        None
    }

    /// This domain inside another: its own rungs, and the outer ones it says
    /// nothing of.
    pub fn merged_under(&self, outer: &FailureDomain) -> (d: Self)
        ensures
            d@ == merged(self@, outer@, outer@.len()),
    {
        let mut d = FailureDomain { labels: Vec::new() };
        let mut i: usize = 0;
        while i < self.labels.len()
            invariant
                i <= self.labels@.len(),
                d@ == self@.take(i as int),
            decreases self.labels@.len() - i,
        {
            let l = &self.labels[i];
            d = d.with(&l.rung, &l.value);
            assert(self@.take(i + 1) =~= self@.take(i as int).push(self@[i as int]));
            i = i + 1;
        }
        assert(self@.take(self@.len() as int) =~= self@);
        i = 0;
        while i < outer.labels.len()
            invariant
                i <= outer.labels@.len(),
                d@ == merged(self@, outer@, i as nat),
            decreases outer.labels@.len() - i,
        {
            let l = &outer.labels[i];
            match self.find(&l.rung) {
                Some(_) => {},
                None => {
                    d = d.with(&l.rung, &l.value);
                },
            }
            i = i + 1;
        }
        d
    }

    /// Whether this domain and another are the same at a rung.
    pub fn same_at(&self, other: &FailureDomain, rung: &str) -> (yes: bool)
        ensures
            yes == same_domain(self@, other@, rung@),
    {
        match self.find(rung) {
            None => false,
            Some(i) => match other.find(rung) {
                None => false,
                Some(j) => text::same_text(&self.labels[i].value, &other.labels[j].value),
            },
        }
    }
}

} // verus!
