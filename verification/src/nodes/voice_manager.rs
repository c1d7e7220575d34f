use vstd::prelude::*;

use crate::is_default;
use vstd::std_specs::cmp::PartialEqSpec;
use crate::nodes::voice_manager2::{self, first_min_index, search_gives};

verus! {

/// Allocates a fixed number of voices to notes, as
/// [`voice_manager2::VoiceManager`] does, and owns the voices themselves:
/// each is made by `voice_builder`.
#[verifier::reject_recursive_types(V)]
pub struct VoiceManager<ID: PartialEq + Default + 'static, V: 'static, B: Fn() -> V> {
    allocation: voice_manager2::VoiceManager<ID>,
    voices: Vec<V>,
    voice_builder: B,
}

impl<ID: PartialEq + Default + 'static, V: 'static, B: Fn() -> V> VoiceManager<ID, V, B> {
    /// There is one voice per allocated slot, and the builder can always be called.
    pub closed spec fn well_formed(&self) -> bool {
        &&& self.voices.len() == self.allocation.ids().len()
        &&& self.voice_builder.requires(())
    }

    /// The voices, by index.
    pub closed spec fn voices(&self) -> Seq<V> {
        self.voices@
    }

    /// The note id that each voice carries.
    pub closed spec fn ids(&self) -> Seq<ID> {
        self.allocation.ids()
    }

    /// The release stamp of each voice (see [`voice_manager2::VoiceManager::stamps`]).
    pub closed spec fn stamps(&self) -> Seq<usize> {
        self.allocation.stamps()
    }

    /// The number of releases so far.
    pub closed spec fn releases(&self) -> nat {
        self.allocation.releases()
    }

    /// The function that makes new voices.
    pub closed spec fn builder(&self) -> B {
        self.voice_builder
    }

    /// Makes `voice_num` idle voices with `voice_builder`, which is kept to
    /// make more voices later.
    pub fn new(voice_builder: B, voice_num: usize) -> (r: Self)
        requires
            voice_builder.requires(()),
        ensures
            r.well_formed(),
            r.builder() == voice_builder,
            r.voices().len() == voice_num,
            forall|i: int| 0 <= i < voice_num ==> voice_builder.ensures((), #[trigger] r.voices()[i]),
            r.ids().len() == voice_num,
            forall|i: int| 0 <= i < voice_num ==> is_default(#[trigger] r.ids()[i]),
            r.stamps() == Seq::new(voice_num as nat, |i: int| 0usize),
            r.releases() == 0,
    {
        let mut voices: Vec<V> = Vec::new();
        while voices.len() < voice_num
            invariant
                voices.len() <= voice_num,
                voice_builder.requires(()),
                forall|i: int| 0 <= i < voices.len() ==> voice_builder.ensures((), #[trigger] voices@[i]),
            decreases voice_num - voices.len(),
        {
            let v = voice_builder();
            voices.push(v);
        }
        VoiceManager { allocation: voice_manager2::VoiceManager::new(voice_num), voices, voice_builder }
    }

    /// Gives the note `id` the voice that was released longest ago (see
    /// [`voice_manager2::VoiceManager::note_on`]) and hands that voice out.
    pub fn note_on(&mut self, id: ID) -> (r: &mut V)
        requires
            old(self).well_formed(),
            old(self).voices().len() > 0,
        ensures
            final(self).well_formed(),
            final(self).builder() == old(self).builder(),
            ({
                let i = first_min_index(old(self).stamps());
                &&& 0 <= i < old(self).voices().len()
                &&& *r == old(self).voices()[i]
                &&& final(self).voices() == old(self).voices().update(i, *final(r))
                &&& final(self).ids() == old(self).ids().update(i, id)
                &&& final(self).stamps() == old(self).stamps().update(i, usize::MAX)
            }),
            final(self).releases() == old(self).releases(),
    {
        proof {
            self.allocation.lemma_lengths();
        }
        let i = self.allocation.note_on(id);
        &mut self.voices[i]
    }

    /// Voice `i` of `self` is `v` and, once handed out and changed, is `v_after`
    /// in `after`, whose other voices are those of `self`.
    pub open spec fn hands_out(self, after: Self, i: int, v: V, v_after: V) -> bool {
        &&& 0 <= i < self.voices().len()
        &&& v == self.voices()[i]
        &&& after.voices() == self.voices().update(i, v_after)
    }

    /// Releases the first voice whose id `ID`'s `==` calls equal to `id` (see
    /// [`voice_manager2::VoiceManager::note_off`]) and hands that voice out,
    /// or returns `None` where no voice matches.
    pub fn note_off(&mut self, id: ID) -> (r: Option<&mut V>)
        requires
            old(self).well_formed(),
            old(self).releases() < usize::MAX || (ID::obeys_eq_spec()
                && forall|j: int| 0 <= j < old(self).ids().len() ==> !(#[trigger] old(self).ids()[j]).eq_spec(&id)),
        ensures
            final(self).well_formed(),
            final(self).builder() == old(self).builder(),
            match r {
                Some(v) => exists|i: int| #![trigger old(self).voices()[i]] {
                    &&& old(self).hands_out(*final(self), i, *v, *final(v))
                    &&& search_gives(old(self).ids(), id, Some(i as usize))
                    &&& is_default(final(self).ids()[i])
                    &&& final(self).ids().len() == old(self).ids().len()
                    &&& forall|j: int| 0 <= j < old(self).ids().len() && j != i ==> #[trigger] final(self).ids()[j] == old(self).ids()[j]
                    &&& final(self).stamps() == old(self).stamps().update(i, old(self).releases() as usize)
                    &&& final(self).releases() == old(self).releases() + 1
                },
                None => {
                    &&& search_gives(old(self).ids(), id, None)
                    &&& final(self).voices() == old(self).voices()
                    &&& final(self).ids() == old(self).ids()
                    &&& final(self).stamps() == old(self).stamps()
                    &&& final(self).releases() == old(self).releases()
                },
            },
    {
        proof {
            self.allocation.lemma_lengths();
            if self.releases() >= usize::MAX {
                assert forall|j: int| 0 <= j < self.allocation.ids().len()
                    implies !(#[trigger] self.allocation.ids()[j]).eq_spec(&id) by {
                    assert(!self.ids()[j].eq_spec(&id));
                }
            }
        }
        match self.allocation.note_off(id) {
            Some(i) => {
                let v = self.voice_mut(i);
                proof {
                    assert(old(self).voices()[i as int] == *v);
                }
                Some(v)
            },
            None => None,
        }
    }

    /// The first voice whose id `ID`'s `==` calls equal to `id`, if any.
    pub fn get_voice_mut(&mut self, id: ID) -> (r: Option<&mut V>)
        requires
            old(self).well_formed(),
        ensures
            final(self).well_formed(),
            final(self).builder() == old(self).builder(),
            final(self).ids() == old(self).ids(),
            final(self).stamps() == old(self).stamps(),
            final(self).releases() == old(self).releases(),
            match r {
                Some(v) => exists|i: int| #![trigger old(self).voices()[i]]
                    old(self).hands_out(*final(self), i, *v, *final(v))
                    && search_gives(old(self).ids(), id, Some(i as usize)),
                None => search_gives(old(self).ids(), id, None) && final(self).voices() == old(self).voices(),
            },
    {
        proof {
            self.allocation.lemma_lengths();
        }
        match self.allocation.get_index_by_id(id) {
            Some(i) => {
                let v = self.voice_mut(i);
                proof {
                    assert(old(self).voices()[i as int] == *v);
                }
                Some(v)
            },
            None => None,
        }
    }

    /// The number of voices.
    pub fn voice_num(&self) -> (r: usize)
        requires
            self.well_formed(),
        ensures
            r == self.voices().len(),
    {
        self.voices.len()
    }

    /// Drops voices from the end, or appends idle voices made by the builder,
    /// until there are `voice_num` of them.
    pub fn set_voice_num(&mut self, voice_num: usize)
        requires
            old(self).well_formed(),
        ensures
            final(self).well_formed(),
            final(self).builder() == old(self).builder(),
            final(self).voices().len() == voice_num,
            final(self).releases() == old(self).releases(),
            voice_num <= old(self).voices().len() ==> {
                &&& final(self).voices() == old(self).voices().subrange(0, voice_num as int)
                &&& final(self).ids() == old(self).ids().subrange(0, voice_num as int)
                &&& final(self).stamps() == old(self).stamps().subrange(0, voice_num as int)
            },
            voice_num > old(self).voices().len() ==> {
                &&& final(self).voices().subrange(0, old(self).voices().len() as int) == old(self).voices()
                &&& forall|i: int| old(self).voices().len() <= i < voice_num ==> old(self).builder().ensures((), #[trigger] final(self).voices()[i])
                &&& final(self).ids().subrange(0, old(self).ids().len() as int) == old(self).ids()
                &&& forall|i: int| old(self).ids().len() <= i < voice_num ==> is_default(#[trigger] final(self).ids()[i])
                &&& final(self).stamps() == old(self).stamps() + Seq::new((voice_num - old(self).voices().len()) as nat, |i: int| 0usize)
            },
    {
        if self.voices.len() < voice_num {
            let old_len = self.voices.len();
            while self.voices.len() < voice_num
                invariant
                    old_len == old(self).voices.len(),
                    old_len <= self.voices.len() <= voice_num,
                    self.voice_builder == old(self).voice_builder,
                    self.voice_builder.requires(()),
                    self.allocation == old(self).allocation,
                    self.voices@.subrange(0, old_len as int) == old(self).voices@,
                    forall|i: int| old_len <= i < self.voices.len() ==> self.voice_builder.ensures((), #[trigger] self.voices@[i]),
                decreases voice_num - self.voices.len(),
            {
                let v = (self.voice_builder)();
                self.voices.push(v);
            }
        } else {
            self.voices.truncate(voice_num);
        }
        self.allocation.set_voice_num(voice_num);
    }

    /// The voice at `index`, for processing the voices in turn.
    pub fn voice_mut(&mut self, index: usize) -> (r: &mut V)
        requires
            old(self).well_formed(),
            index < old(self).voices().len(),
        ensures
            old(self).hands_out(*final(self), index as int, *r, *final(r)),
            final(self).well_formed(),
            final(self).builder() == old(self).builder(),
            final(self).ids() == old(self).ids(),
            final(self).stamps() == old(self).stamps(),
            final(self).releases() == old(self).releases(),
    {
        &mut self.voices[index]
    }
}

} // verus!
