//! Live2D-compatible model descriptors attached to the presentation stage.

use vstd::prelude::*;

use crate::strings::{chars_eq, chars_of, owned};

verus! {

/// Live2D (or Live2D-compatible) model descriptor.
#[derive(Debug, Clone)]
pub struct Live2dModel {
    /// Stable character/model id.
    pub id: String,
    /// Path to model3.json / moc3 package root (relative to project).
    pub model_path: String,
    /// Optional texture atlas path.
    pub texture: Option<String>,
    /// Active expression name.
    pub expression: String,
    /// Motion / idle name.
    pub motion: String,
    /// Placement tag: left | center | right.
    pub at: String,
    /// Z-order.
    pub z: i32,
    /// Visible.
    pub visible: bool,
}

impl Live2dModel {
    /// Create a hidden model at center stage, default expression, idle
    /// motion, z-order 25.
    pub fn new(id: &str, model_path: &str) -> (m: Self)
        ensures
            m.id@ == id@,
            m.model_path@ == model_path@,
            m.texture is None,
            m.expression@ == "default"@,
            m.motion@ == "idle"@,
            m.at@ == "center"@,
            m.z == 25,
            !m.visible,
    {
        Live2dModel {
            id: owned(id),
            model_path: owned(model_path),
            texture: None,
            expression: owned("default"),
            motion: owned("idle"),
            at: owned("center"),
            z: 25,
            visible: false,
        }
    }
}

/// Index of the first model with id `id`.
pub open spec fn first_model(ms: Seq<Live2dModel>, id: Seq<char>) -> Option<int>
    decreases ms.len(),
{
    if ms.len() == 0 {
        None
    } else {
        match first_model(ms.drop_last(), id) {
            Some(i) => Some(i),
            None => if ms.last().id@ == id {
                Some(ms.len() - 1)
            } else {
                None
            },
        }
    }
}

/// Facts about the first model with a given id.
pub proof fn lemma_first_model(ms: Seq<Live2dModel>, id: Seq<char>)
    ensures
        match first_model(ms, id) {
            Some(i) => 0 <= i < ms.len() && ms[i].id@ == id && forall|k: int|
                0 <= k < i ==> (#[trigger] ms[k]).id@ != id,
            None => forall|k: int| 0 <= k < ms.len() ==> (#[trigger] ms[k]).id@ != id,
        },
    decreases ms.len(),
{
    if ms.len() > 0 {
        lemma_first_model(ms.drop_last(), id);
        assert forall|k: int| 0 <= k < ms.len() - 1 implies ms[k] == ms.drop_last()[k] by {}
    }
}

/// The visible models, in order.
pub open spec fn visible_of(ms: Seq<Live2dModel>) -> Seq<Live2dModel>
    decreases ms.len(),
{
    if ms.len() == 0 {
        seq![]
    } else if ms.last().visible {
        visible_of(ms.drop_last()).push(ms.last())
    } else {
        visible_of(ms.drop_last())
    }
}

/// Registry of Live2D models on the product presentation path.
#[derive(Debug, Clone)]
pub struct Live2dStage {
    /// Models, in attach order.
    pub models: Vec<Live2dModel>,
}

impl Default for Live2dStage {
    fn default() -> (r: Self)
        ensures
            r.models@.len() == 0,
    {
        Live2dStage { models: Vec::new() }
    }
}

impl Live2dStage {
    /// Index of the first model with id `id`.
    fn find(&self, id: &[char]) -> (r: Option<usize>)
        ensures
            match r {
                Some(i) => first_model(self.models@, id@) == Some(i as int),
                None => first_model(self.models@, id@) is None,
            },
    {
        let mut i: usize = 0;
        proof {
            lemma_first_model(self.models@, id@);
        }
        while i < self.models.len()
            invariant
                0 <= i <= self.models@.len(),
                forall|k: int| 0 <= k < i ==> (#[trigger] self.models@[k]).id@ != id@,
                match first_model(self.models@, id@) {
                    Some(j) => 0 <= j < self.models@.len() && self.models@[j].id@ == id@
                        && forall|k: int|
                        0 <= k < j ==> (#[trigger] self.models@[k]).id@ != id@,
                    None => forall|k: int|
                        0 <= k < self.models@.len() ==> (#[trigger] self.models@[k]).id@ != id@,
                },
            decreases self.models@.len() - i,
        {
            let c = chars_of(self.models[i].id.as_str());
            if chars_eq(c.as_slice(), id) {
                return Some(i);
            }
            i += 1;
        }
        None
    }

    /// Attach a model, replacing the first one with the same id; it is
    /// stored hidden and not shown until [`Self::show`].
    pub fn attach(&mut self, model: Live2dModel)
        ensures
            final(self).models@ == match first_model(old(self).models@, model.id@) {
                Some(i) => old(self).models@.update(i, Live2dModel { visible: false, ..model }),
                None => old(self).models@.push(Live2dModel { visible: false, ..model }),
            },
    {
        let id = chars_of(model.id.as_str());
        let mut model = model;
        model.visible = false;
        match self.find(id.as_slice()) {
            Some(i) => {
                proof {
                    lemma_first_model(self.models@, model.id@);
                }
                self.models.set(i, model);
            },
            None => {
                self.models.push(model);
            },
        }
    }

    /// Show a model by id (marks it visible); false if no model has the id.
    pub fn show(&mut self, id: &str) -> (found: bool)
        ensures
            found == first_model(old(self).models@, id@) is Some,
            final(self).models@ == match first_model(old(self).models@, id@) {
                Some(i) => old(self).models@.update(
                    i,
                    Live2dModel { visible: true, ..old(self).models@[i] },
                ),
                None => old(self).models@,
            },
    {
        self.set_visible(id, true)
    }

    /// Hide a model by id; false if no model has the id.
    pub fn hide_model(&mut self, id: &str) -> (found: bool)
        ensures
            found == first_model(old(self).models@, id@) is Some,
            final(self).models@ == match first_model(old(self).models@, id@) {
                Some(i) => old(self).models@.update(
                    i,
                    Live2dModel { visible: false, ..old(self).models@[i] },
                ),
                None => old(self).models@,
            },
    {
        self.set_visible(id, false)
    }

    /// Set the visible flag of the first model with the id.
    fn set_visible(&mut self, id: &str, visible: bool) -> (found: bool)
        ensures
            found == first_model(old(self).models@, id@) is Some,
            final(self).models@ == match first_model(old(self).models@, id@) {
                Some(i) => old(self).models@.update(
                    i,
                    Live2dModel { visible: visible, ..old(self).models@[i] },
                ),
                None => old(self).models@,
            },
    {
        let c = chars_of(id);
        match self.find(c.as_slice()) {
            Some(i) => {
                proof {
                    lemma_first_model(self.models@, id@);
                }
                let mut m = self.models.remove(i);
                m.visible = visible;
                self.models.insert(i, m);
                assert(self.models@ =~= old(self).models@.update(
                    i as int,
                    Live2dModel { visible: visible, ..old(self).models@[i as int] },
                ));
                true
            },
            None => false,
        }
    }

    /// Set the expression of the first model with the id; false if none.
    pub fn set_expression(&mut self, id: &str, expression: &str) -> (found: bool)
        ensures
            found == first_model(old(self).models@, id@) is Some,
            match first_model(old(self).models@, id@) {
                Some(i) => {
                    &&& final(self).models@[i].expression@ == expression@
                    &&& final(self).models@ == old(self).models@.update(
                        i,
                        Live2dModel {
                            expression: final(self).models@[i].expression,
                            ..old(self).models@[i]
                        },
                    )
                },
                None => final(self).models@ == old(self).models@,
            },
    {
        let c = chars_of(id);
        match self.find(c.as_slice()) {
            Some(i) => {
                proof {
                    lemma_first_model(self.models@, id@);
                }
                let ghost old_models = self.models@;
                let mut m = self.models.remove(i);
                m.expression = owned(expression);
                self.models.insert(i, m);
                assert(self.models@ =~= old_models.update(
                    i as int,
                    Live2dModel { expression: self.models@[i as int].expression, ..old_models[i as int] },
                ));
                true
            },
            None => false,
        }
    }

    /// The visible models, in attach order.
    pub fn visible_models(&self) -> (r: Vec<&Live2dModel>)
        ensures
            Seq::new(r@.len(), |i: int| *r@[i]) == visible_of(self.models@),
    {
        let mut r: Vec<&Live2dModel> = Vec::new();
        let mut i: usize = 0;
        while i < self.models.len()
            invariant
                0 <= i <= self.models@.len(),
                Seq::new(r@.len(), |k: int| *r@[k]) == visible_of(self.models@.take(i as int)),
            decreases self.models@.len() - i,
        {
            let ghost before = Seq::new(r@.len(), |k: int| *r@[k]);
            assert(self.models@.take(i + 1).drop_last() =~= self.models@.take(i as int));
            if self.models[i].visible {
                r.push(&self.models[i]);
                assert(Seq::new(r@.len(), |k: int| *r@[k]) =~= before.push(self.models@[i as int]));
            }
            i += 1;
        }
        assert(self.models@.take(i as int) =~= self.models@);
        r
    }
}

} // verus!
