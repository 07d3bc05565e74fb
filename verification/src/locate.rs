use vstd::prelude::*;

use crate::collection::ExerciseCollection;
use crate::definition;
use crate::definition::ExerciseDefinition;
use crate::ordered;

verus! {

/// The search for the exercise in the current directory, among all of the collection.
#[derive(Debug)]
pub struct FolderSearch<'a> {
    candidates: &'a Vec<ExerciseDefinition>,
    position: usize,
}

impl<'a> View for FolderSearch<'a> {
    type V = Seq<definition::DefinitionView>;

    /// The exercises that are still to be looked at.
    closed spec fn view(&self) -> Seq<definition::DefinitionView> {
        ordered::views(self.candidates@).skip(self.position as int)
    }
}

impl ExerciseCollection {
    /// The search for the exercise in the current directory.
    pub fn locate(&self) -> (search: FolderSearch<'_>)
        ensures
            search.wf(),
            search@ == self@.exercises,
    {
        FolderSearch { candidates: self.iter(), position: 0 }
    }
}

impl<'a> FolderSearch<'a> {
    /// The position is inside the candidates.
    pub closed spec fn wf(&self) -> bool {
        self.position <= self.candidates.len()
    }

    /// The exercise whose directory is to be compared now. Where there is none, the current
    /// directory is not an exercise.
    pub fn candidate(&self) -> (exercise: Option<&ExerciseDefinition>)
        requires
            self.wf(),
        ensures
            match exercise {
                Some(first) => self@.len() > 0 && first@ == self@[0],
                None => self@.len() == 0,
            },
    {
        if self.position < self.candidates.len() {
            Some(&self.candidates[self.position])
        } else {
            None
        }
    }

    /// Takes whether the directory of the candidate is the current one: then the candidate is
    /// what was searched for.
    pub fn report(&mut self, here: bool) -> (found: Option<ExerciseDefinition>)
        requires
            old(self).wf(),
            old(self)@.len() > 0,
        ensures
            final(self).wf(),
            match found {
                Some(exercise) => here && exercise@ == old(self)@[0] && final(self)@ == old(self)@,
                None => !here && final(self)@ == old(self)@.drop_first(),
            },
    {
        if here {
            Some(self.candidates[self.position].clone())
        } else {
            self.position = self.position + 1;
            None
        }
    }
}

/// What a search ends with, where `here` tells which exercises lie in the current directory.
pub open spec fn located(
    candidates: Seq<definition::DefinitionView>,
    here: spec_fn(definition::DefinitionView) -> bool,
) -> Option<definition::DefinitionView>
    decreases candidates.len(),
{
    if candidates.len() == 0 {
        None
    } else if here(candidates[0]) {
        Some(candidates[0])
    } else {
        located(candidates.drop_first(), here)
    }
}

/// The exercise that is found is the first that lies in the current directory; none is found
/// only where none does.
pub proof fn law_first_exercise_here_is_located(
    candidates: Seq<definition::DefinitionView>,
    here: spec_fn(definition::DefinitionView) -> bool,
) -> (k: int)
    ensures
        0 <= k <= candidates.len(),
        forall|j: int| 0 <= j < k ==> !here(#[trigger] candidates[j]),
        match located(candidates, here) {
            Some(found) => k < candidates.len() && found == candidates[k] && here(found),
            None => k == candidates.len(),
        },
    decreases candidates.len(),
{
    if candidates.len() == 0 || here(candidates[0]) {
        0
    } else {
        let rest = candidates.drop_first();
        let k = law_first_exercise_here_is_located(rest, here) + 1;
        assert forall|j: int| 0 <= j < k implies !here(#[trigger] candidates[j]) by {
            if j > 0 {
                assert(candidates[j] == rest[j - 1]);
            }
        }
        k
    }
}

} // verus!
