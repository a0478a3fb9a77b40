//! The catalog snapshot handed to the reconciliation engine: majors with
//! their unit lists, plus the flat core and elective unit lists.

use vstd::prelude::*;

verus! {

/// A unit is referred to by its name.
pub type Unit = String;

/// One major of the snapshot: its title and the names of the units that
/// belong to it.
#[derive(Debug)]
pub struct Major {
    pub title: String,
    pub units: Vec<Unit>,
}

/// Mathematical model of a snapshot major.
pub ghost struct MajorV {
    pub title: Seq<char>,
    pub units: Seq<Seq<char>>,
}

/// The model of a list of unit names.
pub open spec fn names_view(names: Seq<String>) -> Seq<Seq<char>> {
    names.map_values(|n: String| n@)
}

pub broadcast proof fn lemma_names_view_len(names: Seq<String>)
    ensures
        (#[trigger] names_view(names)).len() == names.len(),
{
}

pub broadcast proof fn lemma_names_view_index(names: Seq<String>, k: int)
    requires
        0 <= k < names.len(),
    ensures
        #[trigger] names_view(names)[k] == names[k]@,
{
}

pub broadcast proof fn lemma_names_view_push(names: Seq<String>, n: String)
    ensures
        #[trigger] names_view(names.push(n)) == names_view(names).push(n@),
{
    assert(names_view(names.push(n)) =~= names_view(names).push(n@));
}

/// The model of a list of snapshot majors.
pub open spec fn majors_view(majors: Seq<Major>) -> Seq<MajorV> {
    majors.map_values(|m: Major| m@)
}

pub broadcast proof fn lemma_majors_view_len(majors: Seq<Major>)
    ensures
        (#[trigger] majors_view(majors)).len() == majors.len(),
{
}

pub broadcast proof fn lemma_majors_view_index(majors: Seq<Major>, k: int)
    requires
        0 <= k < majors.len(),
    ensures
        #[trigger] majors_view(majors)[k] == majors[k]@,
{
}

impl View for Major {
    type V = MajorV;

    open spec fn view(&self) -> MajorV {
        MajorV { title: self.title@, units: names_view(self.units@) }
    }
}

/// A freshly scraped catalog snapshot. For the major and core categories it
/// is taken to enumerate every currently valid unit; the elective list may
/// be partial, which is why electives are never pruned.
#[derive(Debug)]
pub struct Handbook {
    pub majors: Vec<Major>,
    pub cores: Vec<Unit>,
    pub electives: Vec<Unit>,
}

/// Mathematical model of a snapshot.
pub ghost struct HandbookV {
    pub majors: Seq<MajorV>,
    pub cores: Seq<Seq<char>>,
    pub electives: Seq<Seq<char>>,
}

impl View for Handbook {
    type V = HandbookV;

    open spec fn view(&self) -> HandbookV {
        HandbookV {
            majors: majors_view(self.majors@),
            cores: names_view(self.cores@),
            electives: names_view(self.electives@),
        }
    }
}

/// Every name in the list is non-empty.
pub open spec fn names_valid(names: Seq<Seq<char>>) -> bool {
    forall|i: int| 0 <= i < names.len() ==> (#[trigger] names[i]).len() > 0
}

impl HandbookV {
    /// A snapshot is accepted by the reconciliation engine when every major
    /// title and every unit name is non-empty and no two majors share a
    /// title. Anything else is malformed input, rejected before the store
    /// is touched.
    pub open spec fn valid(self) -> bool {
        &&& forall|i: int|
            0 <= i < self.majors.len() ==> (#[trigger] self.majors[i]).title.len() > 0
        &&& forall|i: int, j: int|
            0 <= i < j < self.majors.len() ==> self.majors[i].title != self.majors[j].title
        &&& forall|i: int| 0 <= i < self.majors.len() ==> names_valid((#[trigger] self.majors[i]).units)
        &&& names_valid(self.cores)
        &&& names_valid(self.electives)
    }
}

/// Checks that every name in the list is non-empty.
pub fn check_names(names: &Vec<Unit>) -> (r: bool)
    ensures
        r == names_valid(names_view(names@)),
{
    broadcast use lemma_names_view_len, lemma_names_view_index;

    let mut i: usize = 0;
    while i < names.len()
        invariant
            i <= names.len(),
            forall|k: int| 0 <= k < i ==> (#[trigger] names_view(names@)[k]).len() > 0,
        decreases names.len() - i,
    {
        if names[i].as_str().is_empty() {
            assert(names_view(names@)[i as int].len() == 0);
            return false;
        }
        i += 1;
    }
    true
}

/// Checks that the snapshot is well formed, exactly as `HandbookV::valid`
/// states.
pub fn validate_handbook(handbook: &Handbook) -> (r: bool)
    ensures
        r == handbook@.valid(),
{
    broadcast use lemma_majors_view_len, lemma_majors_view_index;

    let majors = &handbook.majors;
    let ghost mseq = handbook@.majors;
    let mut i: usize = 0;
    while i < majors.len()
        invariant
            majors == &handbook.majors,
            mseq == handbook@.majors,
            i <= majors.len(),
            forall|k: int|
                0 <= k < i ==> (#[trigger] mseq[k]).title.len() > 0 && names_valid(mseq[k].units),
            forall|k: int, l: int|
                0 <= k < i && k < l < mseq.len() ==> (#[trigger] mseq[k]).title != (#[trigger] mseq[l]).title,
        decreases majors.len() - i,
    {
        broadcast use lemma_majors_view_len, lemma_majors_view_index;

        let major = &majors[i];
        if major.title.as_str().is_empty() {
            proof {
                assert(mseq[i as int].title.len() == 0);
                assert(!handbook@.valid());
            }
            return false;
        }
        if !check_names(&major.units) {
            proof {
                assert(!names_valid(mseq[i as int].units));
                assert(!handbook@.valid());
            }
            return false;
        }
        let mut j: usize = i + 1;
        while j < majors.len()
            invariant
                majors == &handbook.majors,
                mseq == handbook@.majors,
                i < j <= majors.len(),
                i < majors.len(),
                major == &majors@[i as int],
                forall|l: int| i < l < j ==> mseq[i as int].title != (#[trigger] mseq[l]).title,
            decreases majors.len() - j,
        {
            broadcast use lemma_majors_view_len, lemma_majors_view_index;

            let same = major.title == majors[j].title;
            if same {
                proof {
                    assert(mseq[i as int].title == mseq[j as int].title);
                    assert(!handbook@.valid());
                }
                return false;
            }
            j += 1;
        }
        i += 1;
    }
    check_names(&handbook.cores) && check_names(&handbook.electives)
}

} // verus!
