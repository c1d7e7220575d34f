use vstd::prelude::*;

use crate::is_default;
use vstd::std_specs::cmp::PartialEqSpec;

verus! {

/// `index` is the first position of `counts` that holds their least value.
pub open spec fn is_first_min(counts: Seq<usize>, index: int) -> bool {
    &&& 0 <= index < counts.len()
    &&& forall|j: int| 0 <= j < counts.len() ==> counts[index] <= #[trigger] counts[j]
    &&& forall|j: int| 0 <= j < index ==> counts[index] < #[trigger] counts[j]
}

/// The outcome of a search for `id` in `ids` from the front: the first
/// position that holds it, or `None` where no position does.
pub open spec fn is_first_match<ID>(ids: Seq<ID>, id: ID, found: Option<usize>) -> bool {
    match found {
        Some(i) => {
            &&& i < ids.len()
            &&& ids[i as int] == id
            &&& forall|j: int| 0 <= j < i ==> #[trigger] ids[j] != id
        },
        None => forall|j: int| 0 <= j < ids.len() ==> #[trigger] ids[j] != id,
    }
}

/// The first position that holds the least of `counts`.
pub open spec fn first_min_index(counts: Seq<usize>) -> int {
    choose|i: int| is_first_min(counts, i)
}

/// The first position of `ids` that holds `id`, if any.
pub open spec fn first_match<ID>(ids: Seq<ID>, id: ID) -> Option<usize> {
    if exists|i: usize| is_first_match(ids, id, Some(i)) {
        Some(choose|i: usize| is_first_match(ids, id, Some(i)))
    } else {
        None
    }
}

/// The outcome of a search for `id` in `ids` from the front, as `ID`'s `==`
/// compares: the first position whose id it calls equal to `id`, or `None`.
pub open spec fn is_first_eq_match<ID: PartialEq>(ids: Seq<ID>, id: ID, found: Option<usize>) -> bool {
    match found {
        Some(i) => {
            &&& i < ids.len()
            &&& ids[i as int].eq_spec(&id)
            &&& forall|j: int| 0 <= j < i ==> !(#[trigger] ids[j]).eq_spec(&id)
        },
        None => forall|j: int| 0 <= j < ids.len() ==> !(#[trigger] ids[j]).eq_spec(&id),
    }
}

/// The first position of `ids` whose id `ID`'s `==` calls equal to `id`, if any.
pub open spec fn first_eq_match<ID: PartialEq>(ids: Seq<ID>, id: ID) -> Option<usize> {
    if exists|i: usize| is_first_eq_match(ids, id, Some(i)) {
        Some(choose|i: usize| is_first_eq_match(ids, id, Some(i)))
    } else {
        None
    }
}

/// What a search for `id` in `ids` with `ID`'s `==` gives, as far as that
/// `==` is known: the first position it calls equal where it follows its
/// specification, and the first that holds `id` itself where it is equality.
pub open spec fn search_gives<ID: PartialEq>(ids: Seq<ID>, id: ID, found: Option<usize>) -> bool {
    &&& ID::obeys_eq_spec() ==> is_first_eq_match(ids, id, found) && found == first_eq_match(ids, id)
    &&& vstd::laws_eq::obeys_concrete_eq::<ID>() ==> is_first_match(ids, id, found) && found == first_match(ids, id)
}

/// Only one outcome is the outcome of a search with `ID`'s `==`, and where
/// that `==` is equality it is the outcome of the search for `id` itself.
pub proof fn lemma_search_gives<ID: PartialEq>(ids: Seq<ID>, id: ID, found: Option<usize>)
    requires
        ID::obeys_eq_spec() ==> is_first_eq_match(ids, id, found),
    ensures
        search_gives(ids, id, found),
{
    reveal(vstd::laws_eq::obeys_concrete_eq);
    if ID::obeys_eq_spec() {
        match found {
            Some(i) => {
                let j = choose|j: usize| is_first_eq_match(ids, id, Some(j));
                if j < i {
                    assert(!ids[j as int].eq_spec(&id));
                } else if i < j {
                    assert(!ids[i as int].eq_spec(&id));
                }
            },
            None => {
                if exists|i: usize| is_first_eq_match(ids, id, Some(i)) {
                    let i = choose|i: usize| is_first_eq_match(ids, id, Some(i));
                    assert(ids[i as int].eq_spec(&id));
                }
            },
        }
    }
    if vstd::laws_eq::obeys_concrete_eq::<ID>() {
        match found {
            Some(i) => {
                assert forall|j: int| 0 <= j < i implies #[trigger] ids[j] != id by {
                    assert(!ids[j].eq_spec(&id));
                }
            },
            None => {
                assert forall|j: int| 0 <= j < ids.len() implies #[trigger] ids[j] != id by {
                    assert(!ids[j].eq_spec(&id));
                }
            },
        }
        lemma_first_match(ids, id, found);
    }
}

/// Only one position is the first that holds the least value.
pub proof fn lemma_first_min_index(counts: Seq<usize>, i: int)
    requires
        is_first_min(counts, i),
    ensures
        first_min_index(counts) == i,
{
    let j = first_min_index(counts);
    assert(is_first_min(counts, j));
    if j < i {
        assert(counts[i] < counts[j]);
    } else if i < j {
        assert(counts[j] < counts[i]);
    }
}

/// Only one outcome is the outcome of the search.
pub proof fn lemma_first_match<ID>(ids: Seq<ID>, id: ID, found: Option<usize>)
    requires
        is_first_match(ids, id, found),
    ensures
        first_match(ids, id) == found,
{
    match found {
        Some(i) => {
            assert(is_first_match(ids, id, Some(i)));
            let j = choose|j: usize| is_first_match(ids, id, Some(j));
            if j < i {
                assert(ids[j as int] != id);
            } else if i < j {
                assert(ids[i as int] != id);
            }
        },
        None => {
            if exists|i: usize| is_first_match(ids, id, Some(i)) {
                let i = choose|i: usize| is_first_match(ids, id, Some(i));
                assert(ids[i as int] == id);
            }
        },
    }
}

/// Every release stamp marks a sounding voice (`usize::MAX`), a voice that was
/// never used (0), or one of the `releases` releases so far.
pub open spec fn stamps_are_bounded(stamps: Seq<usize>, releases: nat) -> bool {
    forall|j: int| 0 <= j < stamps.len() ==> #[trigger] stamps[j] == usize::MAX || stamps[j] == 0 || stamps[j] < releases
}

/// A note given a voice by `note_on` is then found by its id, provided no
/// voice carried that id before.
pub proof fn law_note_on_then_found<ID>(ids: Seq<ID>, stamps: Seq<usize>, id: ID, i: usize)
    requires
        ids.len() == stamps.len(),
        is_first_min(stamps, i as int),
        forall|j: int| 0 <= j < ids.len() ==> #[trigger] ids[j] != id,
    ensures
        is_first_match(ids.update(i as int, id), id, Some(i)),
{
    assert forall|j: int| 0 <= j < i implies #[trigger] ids.update(i as int, id)[j] != id by {
        assert(ids.update(i as int, id)[j] == ids[j]);
    }
}

/// While some voice is released or unused, `note_on` never takes a voice
/// that sounds a note.
pub proof fn law_note_on_spares_sounding_voices(stamps: Seq<usize>, i: int)
    requires
        is_first_min(stamps, i),
        exists|j: int| 0 <= j < stamps.len() && stamps[j] < usize::MAX,
    ensures
        stamps[i] < usize::MAX,
{
}

/// Every operation keeps each release stamp either a sounding mark, the
/// initial 0, or below the number of releases: `note_on` stamps `usize::MAX`,
/// `note_off` stamps the current release number and then counts one more.
pub proof fn law_stamps_stay_bounded(stamps: Seq<usize>, releases: nat, i: int)
    requires
        stamps_are_bounded(stamps, releases),
        0 <= i < stamps.len(),
        releases < usize::MAX,
    ensures
        stamps_are_bounded(stamps.update(i, usize::MAX), releases),
        stamps_are_bounded(stamps.update(i, releases as usize), releases + 1),
        stamps_are_bounded(stamps.subrange(0, i), releases),
        stamps_are_bounded(stamps + Seq::new(i as nat, |k: int| 0usize), releases),
{
    assert forall|j: int| 0 <= j < stamps.update(i, releases as usize).len() implies
        #[trigger] stamps.update(i, releases as usize)[j] == usize::MAX || stamps.update(i, releases as usize)[j] == 0 || stamps.update(i, releases as usize)[j] < releases + 1 by {
        if j != i {
            assert(stamps.update(i, releases as usize)[j] == stamps[j]);
        }
    }
    let grown = stamps + Seq::new(i as nat, |k: int| 0usize);
    assert forall|j: int| 0 <= j < grown.len() implies
        #[trigger] grown[j] == usize::MAX || grown[j] == 0 || grown[j] < releases by {
        if j < stamps.len() {
            assert(grown[j] == stamps[j]);
        }
    }
}

/// Allocates a fixed number of voices to notes. A voice that sounds a note
/// carries the note's id; a released voice carries the default id and the
/// number of releases that came before its own, so that a new note takes the
/// voice that was released longest ago.
pub struct VoiceManager<ID: PartialEq + Default + 'static> {
    voices: Vec<Voice<ID>>,
    count: usize,
}

struct Voice<ID> {
    id: ID,
    note_off_count: usize,
}

impl<ID: PartialEq + Default + 'static> VoiceManager<ID> {
    /// The id that each voice carries, by voice index.
    pub closed spec fn ids(&self) -> Seq<ID> {
        self.voices@.map_values(|v: Voice<ID>| v.id)
    }

    /// The release stamp of each voice, by voice index: `usize::MAX` for a
    /// voice that sounds a note, else the number of releases before its own.
    pub closed spec fn stamps(&self) -> Seq<usize> {
        self.voices@.map_values(|v: Voice<ID>| v.note_off_count)
    }

    /// The number of releases so far.
    pub closed spec fn releases(&self) -> nat {
        self.count as nat
    }

    /// Every voice has one id and one stamp.
    pub proof fn lemma_lengths(&self)
        ensures
            self.ids().len() == self.stamps().len(),
    {
    }

    /// Creates `voice_num` idle voices.
    pub fn new(voice_num: usize) -> (r: Self)
        ensures
            r.ids().len() == voice_num,
            r.stamps() == Seq::new(voice_num as nat, |i: int| 0usize),
            forall|i: int| 0 <= i < voice_num ==> is_default(#[trigger] r.ids()[i]),
            r.releases() == 0,
    {
        let mut voices: Vec<Voice<ID>> = Vec::new();
        while voices.len() < voice_num
            invariant
                voices.len() <= voice_num,
                forall|i: int| 0 <= i < voices.len() ==> is_default(#[trigger] voices@[i].id),
                forall|i: int| 0 <= i < voices.len() ==> #[trigger] voices@[i].note_off_count == 0,
            decreases voice_num - voices.len(),
        {
            voices.push(Voice { id: ID::default(), note_off_count: 0 });
        }
        let r = VoiceManager { voices, count: 0 };
        assert(r.stamps() =~= Seq::new(voice_num as nat, |i: int| 0usize));
        r
    }

    /// Gives the note `id` the voice that was released longest ago (the first
    /// such voice where several tie) and returns its index; the voice is then
    /// marked as sounding.
    pub fn note_on(&mut self, id: ID) -> (r: usize)
        requires
            old(self).ids().len() > 0,
        ensures
            is_first_min(old(self).stamps(), r as int),
            r == first_min_index(old(self).stamps()),
            final(self).ids() == old(self).ids().update(r as int, id),
            final(self).stamps() == old(self).stamps().update(r as int, usize::MAX),
            final(self).releases() == old(self).releases(),
    {
        let i = self.next_voice_index();
        self.voices.set(i, Voice { id, note_off_count: usize::MAX });
        proof {
            lemma_first_min_index(old(self).stamps(), i as int);
            assert(self.ids() =~= old(self).ids().update(i as int, id));
            assert(self.stamps() =~= old(self).stamps().update(i as int, usize::MAX));
        }
        i
    }

    /// Releases the first voice whose id `ID`'s `==` calls equal to `id`: it
    /// gets the default id and the current release number, which then grows
    /// by one. Returns the voice's index, or `None` where no voice matches.
    pub fn note_off(&mut self, id: ID) -> (r: Option<usize>)
        requires
            old(self).releases() < usize::MAX || (ID::obeys_eq_spec()
                && forall|j: int| 0 <= j < old(self).ids().len() ==> !(#[trigger] old(self).ids()[j]).eq_spec(&id)),
        ensures
            search_gives(old(self).ids(), id, r),
            match r {
                Some(i) => {
                    &&& i < old(self).ids().len()
                    &&& final(self).ids().len() == old(self).ids().len()
                    &&& is_default(final(self).ids()[i as int])
                    &&& forall|j: int| 0 <= j < old(self).ids().len() && j != i ==> #[trigger] final(self).ids()[j] == old(self).ids()[j]
                    &&& final(self).stamps() == old(self).stamps().update(i as int, old(self).releases() as usize)
                    &&& final(self).releases() == old(self).releases() + 1
                },
                None => {
                    &&& final(self).ids() == old(self).ids()
                    &&& final(self).stamps() == old(self).stamps()
                    &&& final(self).releases() == old(self).releases()
                },
            },
    {
        let len = self.voices.len();
        let mut i: usize = 0;
        while i < len
            invariant
                len == self.voices.len(),
                self == old(self),
                i <= len,
                old(self).releases() < usize::MAX || (ID::obeys_eq_spec()
                    && forall|j: int| 0 <= j < old(self).ids().len() ==> !(#[trigger] old(self).ids()[j]).eq_spec(&id)),
                ID::obeys_eq_spec() ==> forall|j: int| 0 <= j < i ==> !(#[trigger] self.ids()[j]).eq_spec(&id),
            decreases len - i,
        {
            let same = self.voices[i].id == id;
            proof {
                assert(self.ids()[i as int] == self.voices@[i as int].id);
            }
            if same {
                let stamp = self.count;
                self.voices.set(i, Voice { id: ID::default(), note_off_count: stamp });
                self.count = stamp + 1;
                proof {
                    assert(self.stamps() =~= old(self).stamps().update(i as int, old(self).releases() as usize));
                    lemma_search_gives(old(self).ids(), id, Some(i));
                }
                return Some(i);
            }
            i += 1;
        }
        proof { lemma_search_gives(old(self).ids(), id, None); }
        None
    }

    /// The index of the first voice whose id `ID`'s `==` calls equal to `id`, if any.
    pub fn get_index_by_id(&self, id: ID) -> (r: Option<usize>)
        ensures
            search_gives(self.ids(), id, r),
            r matches Some(i) ==> i < self.ids().len(),
    {
        let len = self.voices.len();
        let mut i: usize = 0;
        while i < len
            invariant
                len == self.voices.len(),
                i <= len,
                ID::obeys_eq_spec() ==> forall|j: int| 0 <= j < i ==> !(#[trigger] self.ids()[j]).eq_spec(&id),
            decreases len - i,
        {
            let same = self.voices[i].id == id;
            proof {
                assert(self.ids()[i as int] == self.voices@[i as int].id);
            }
            if same {
                proof { lemma_search_gives(self.ids(), id, Some(i)); }
                return Some(i);
            }
            i += 1;
        }
        proof { lemma_search_gives(self.ids(), id, None); }
        None
    }

    /// The number of voices.
    pub fn voice_num(&self) -> (r: usize)
        ensures
            r == self.ids().len(),
    {
        self.voices.len()
    }

    /// Drops voices from the end, or appends idle voices, until there are
    /// `voice_num` of them.
    pub fn set_voice_num(&mut self, voice_num: usize)
        ensures
            final(self).ids().len() == voice_num,
            final(self).releases() == old(self).releases(),
            voice_num <= old(self).ids().len() ==> {
                &&& final(self).ids() == old(self).ids().subrange(0, voice_num as int)
                &&& final(self).stamps() == old(self).stamps().subrange(0, voice_num as int)
            },
            voice_num > old(self).ids().len() ==> {
                &&& final(self).ids().subrange(0, old(self).ids().len() as int) == old(self).ids()
                &&& final(self).stamps() == old(self).stamps() + Seq::new((voice_num - old(self).ids().len()) as nat, |i: int| 0usize)
                &&& forall|i: int| old(self).ids().len() <= i < voice_num ==> is_default(#[trigger] final(self).ids()[i])
            },
    {
        if voice_num <= self.voices.len() {
            self.voices.truncate(voice_num);
            proof {
                assert(self.ids() =~= old(self).ids().subrange(0, voice_num as int));
                assert(self.stamps() =~= old(self).stamps().subrange(0, voice_num as int));
            }
        } else {
            let old_len = self.voices.len();
            while self.voices.len() < voice_num
                invariant
                    old_len == old(self).voices.len(),
                    old_len <= self.voices.len() <= voice_num,
                    self.count == old(self).count,
                    self.voices@.subrange(0, old_len as int) == old(self).voices@,
                    forall|i: int| old_len <= i < self.voices.len() ==> is_default(#[trigger] self.voices@[i].id),
                    forall|i: int| old_len <= i < self.voices.len() ==> #[trigger] self.voices@[i].note_off_count == 0,
                decreases voice_num - self.voices.len(),
            {
                self.voices.push(Voice { id: ID::default(), note_off_count: 0 });
            }
            proof {
                assert(self.ids().subrange(0, old_len as int) =~= old(self).ids());
                assert(self.stamps() =~= old(self).stamps() + Seq::new((voice_num - old_len) as nat, |i: int| 0usize));
            }
        }
    }

    /// The index of the first voice with the least release stamp.
    fn next_voice_index(&self) -> (r: usize)
        requires
            self.ids().len() > 0,
        ensures
            is_first_min(self.stamps(), r as int),
    {
        let len = self.voices.len();
        let mut best: usize = 0;
        let mut i: usize = 1;
        while i < len
            invariant
                len == self.voices.len(),
                len > 0,
                best < i <= len,
                forall|j: int| 0 <= j < i ==> self.stamps()[best as int] <= #[trigger] self.stamps()[j],
                forall|j: int| 0 <= j < best ==> self.stamps()[best as int] < #[trigger] self.stamps()[j],
            decreases len - i,
        {
            if self.voices[i].note_off_count < self.voices[best].note_off_count {
                best = i;
            }
            i += 1;
        }
        best
    }
}

} // verus!
