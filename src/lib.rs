//! An in-memory store of goals and of the requirements between them.
//!
//! A goal is a titled unit of work with an id that is assigned once and never
//! reused. A goal may require other goals: the store keeps, beside the goal
//! registry, a map from a parent id to the set of child ids that it requires.
//! A goal can only be deleted while it requires nothing.
use std::collections::HashMap;
use std::collections::HashSet;
use vstd::prelude::*;

verus! {

broadcast use vstd::std_specs::hash::group_hash_axioms;

/// Identifies a goal; assigned in increasing order and never reused.
pub type GoalId = usize;

/// Why an operation on the store failed.
#[derive(Debug, Clone, Copy, PartialEq, Eq, Structural)]
pub enum AppError {
    /// No goal with this id is registered.
    GoalIdNotFound(GoalId),
    /// The goal still requires at least one other goal.
    ChildrenGoalsExist,
}

/// A goal as the store holds it.
#[derive(Debug)]
pub struct Goal {
    pub id: GoalId,
    pub title: String,
    pub completed: bool,
}

/// The mathematical value of a goal.
pub struct GoalView {
    pub id: GoalId,
    pub title: Seq<char>,
    pub completed: bool,
}

impl View for Goal {
    type V = GoalView;

    open spec fn view(&self) -> GoalView {
        GoalView { id: self.id, title: self.title@, completed: self.completed }
    }
}

/// The mathematical value of a store: the next id to hand out, the registry
/// of live goals by id, and the requirement sets by parent id.
pub struct ModelView {
    pub next_id: nat,
    pub goals: Map<GoalId, GoalView>,
    pub children: Map<GoalId, Set<GoalId>>,
}

impl ModelView {
    /// Every id in the store was issued before `next_id`, each goal is filed
    /// under its own id, and only live goals have a requirement set.
    /// (A requirement may name a goal deleted since: deletion does not
    /// clean up incoming requirements.)
    pub open spec fn wf(self) -> bool {
        &&& self.goals.dom().finite()
        &&& forall|k: GoalId| #[trigger]
            self.goals.contains_key(k) ==> self.goals[k].id == k && k < self.next_id
        &&& forall|p: GoalId| #[trigger] self.children.contains_key(p) ==> self.goals.contains_key(p)
        &&& forall|p: GoalId, c: GoalId|
            #[trigger] self.children.contains_key(p) && #[trigger] self.children[p].contains(c)
                ==> c < self.next_id
    }

    /// The goals that `p` requires; empty where `p` has no requirement set.
    pub open spec fn requirements(self, p: GoalId) -> Set<GoalId> {
        if self.children.contains_key(p) {
            self.children[p]
        } else {
            Set::empty()
        }
    }

    /// The goal that the next creation makes.
    pub open spec fn new_goal(self, title: Seq<char>) -> GoalView {
        GoalView { id: self.next_id as GoalId, title, completed: false }
    }

    /// The store after creating a goal with this title.
    pub open spec fn with_goal(self, title: Seq<char>) -> ModelView {
        ModelView {
            next_id: self.next_id + 1,
            goals: self.goals.insert(self.next_id as GoalId, self.new_goal(title)),
            children: self.children,
        }
    }
    /// The store after registering `c` as required by `p`.
    pub open spec fn with_requirement(self, p: GoalId, c: GoalId) -> ModelView {
        ModelView { children: self.children.insert(p, self.requirements(p).insert(c)), ..self }
    }

    /// The store after taking `c` out of the requirement set of `p`.
    pub open spec fn without_requirement(self, p: GoalId, c: GoalId) -> ModelView {
        ModelView { children: self.children.insert(p, self.requirements(p).remove(c)), ..self }
    }

    /// The store after deleting goal `g` together with its requirement set.
    pub open spec fn without_goal(self, g: GoalId) -> ModelView {
        ModelView { goals: self.goals.remove(g), children: self.children.remove(g), ..self }
    }
}

/// The goal registry together with the requirement relation.
pub struct Model {
    next_goal_id: usize,
    goals: HashMap<GoalId, Goal>,
    children: HashMap<GoalId, HashSet<GoalId>>,
}

impl View for Model {
    type V = ModelView;

    closed spec fn view(&self) -> ModelView {
        ModelView {
            next_id: self.next_goal_id as nat,
            goals: self.goals@.map_values(|g: Goal| g@),
            children: self.children@.map_values(|s: HashSet<GoalId>| s@),
        }
    }
}

impl Model {
    /// An empty store whose first goal gets id 0.
    pub fn new() -> (r: Model)
        ensures
            r@.wf(),
            r@ == (ModelView { next_id: 0, goals: Map::empty(), children: Map::empty() }),
    {
        let r = Model { next_goal_id: 0, goals: HashMap::new(), children: HashMap::new() };
        assert(r@.goals =~= Map::empty());
        assert(r@.children =~= Map::empty());
        r
    }
}

/// Creates a goal with the given title under the next unused id, and returns it.
///
/// The new goal is not completed and requires nothing. The id counter must
/// not have reached the largest `usize`.
pub fn make_goal<'a>(model: &'a mut Model, title: &str) -> (r: &'a Goal)
    requires
        old(model)@.wf(),
        old(model)@.next_id < usize::MAX,
    ensures
        final(model)@.wf(),
        final(model)@ == old(model)@.with_goal(title@),
        r@ == old(model)@.new_goal(title@),
{
    let goal_id = model.next_goal_id;
    model.next_goal_id += 1;

    let goal = Goal { id: goal_id, title: title.to_owned(), completed: false };

    model.goals.insert(goal_id, goal);
    proof {
        let old_v = old(model)@;
        assert(model@.goals =~= old_v.goals.insert(goal_id, old_v.new_goal(title@)));
        assert(model@.children =~= old_v.children);
    }
    model.goals.get(&goal_id).unwrap()
}

/// Registers `child_goal_id` as a goal that `parent_goal_id` requires.
///
/// Fails, leaving the store as it was, with `GoalIdNotFound` naming the
/// parent where no goal has that id, else naming the child where no goal
/// has that id. Adding a pair that is already registered changes nothing.
pub fn add_requirement(model: &mut Model, parent_goal_id: GoalId, child_goal_id: GoalId) -> (r:
    Result<(), AppError>)
    requires
        old(model)@.wf(),
    ensures
        final(model)@.wf(),
        !old(model)@.goals.contains_key(parent_goal_id) ==> r == Err::<(), AppError>(
            AppError::GoalIdNotFound(parent_goal_id),
        ) && final(model)@ == old(model)@,
        old(model)@.goals.contains_key(parent_goal_id) && !old(model)@.goals.contains_key(
            child_goal_id,
        ) ==> r == Err::<(), AppError>(AppError::GoalIdNotFound(child_goal_id)) && final(model)@
            == old(model)@,
        old(model)@.goals.contains_key(parent_goal_id) && old(model)@.goals.contains_key(
            child_goal_id,
        ) ==> r == Ok::<(), AppError>(()) && final(model)@ == old(model)@.with_requirement(
            parent_goal_id,
            child_goal_id,
        ),
{
    if model.goals.get(&parent_goal_id).is_none() {
        Err(AppError::GoalIdNotFound(parent_goal_id))
    } else if model.goals.get(&child_goal_id).is_none() {
        Err(AppError::GoalIdNotFound(child_goal_id))
    } else {
        let children = model.children.entry(parent_goal_id).or_insert(HashSet::new());
        children.insert(child_goal_id);
        proof {
            let old_v = old(model)@;
            assert(model@.children =~= old_v.with_requirement(
                parent_goal_id,
                child_goal_id,
            ).children);
            assert forall|p: GoalId, c: GoalId|
                #[trigger] model@.children.contains_key(p) && #[trigger] model@.children[p].contains(
                    c,
                ) implies c < model@.next_id by {
                if p != parent_goal_id {
                    assert(old_v.children.contains_key(p) && old_v.children[p].contains(c));
                } else if c != child_goal_id {
                    assert(old_v.children.contains_key(p) && old_v.children[p].contains(c));
                } else {
                    assert(old_v.goals.contains_key(child_goal_id));
                }
            }
        }
        Ok(())
    }
}

/// Takes `child_goal_id` out of the goals that `parent_goal_id` requires.
///
/// Returns whether it was there; where it was not, the store is unchanged.
/// Neither id needs to name a live goal.
pub fn remove_requirement(model: &mut Model, parent_goal_id: GoalId, child_goal_id: GoalId) -> (r:
    bool)
    requires
        old(model)@.wf(),
    ensures
        final(model)@.wf(),
        r == old(model)@.requirements(parent_goal_id).contains(child_goal_id),
        r ==> final(model)@ == old(model)@.without_requirement(parent_goal_id, child_goal_id),
        !r ==> final(model)@ == old(model)@,
{
    match model.children.remove(&parent_goal_id) {
        Some(mut children) => {
            let removed = children.remove(&child_goal_id);
            model.children.insert(parent_goal_id, children);
            proof {
                let old_v = old(model)@;
                if removed {
                    assert(model@.children =~= old_v.without_requirement(
                        parent_goal_id,
                        child_goal_id,
                    ).children);
                } else {
                    assert(children@ =~= old_v.children[parent_goal_id]);
                    assert(model@.children =~= old_v.children);
                }
                assert forall|p: GoalId, c: GoalId|
                    #[trigger] model@.children.contains_key(p)
                        && #[trigger] model@.children[p].contains(c) implies c < model@.next_id by {
                    assert(old_v.children.contains_key(p) && old_v.children[p].contains(c));
                }
            }
            removed
        },
        None => {
            proof {
                assert(model@.children =~= old(model)@.children);
            }
            false
        },
    }
}

/// Deletes goal `goal_id` and returns it.
///
/// Fails with `ChildrenGoalsExist` while the goal requires another goal, else
/// with `GoalIdNotFound` where no goal has that id; either way the store is
/// unchanged. On success the goal's (empty) requirement set goes too;
/// requirements of other goals that name it are left as they are.
pub fn delete_goal(model: &mut Model, goal_id: &GoalId) -> (r: Result<Goal, AppError>)
    requires
        old(model)@.wf(),
    ensures
        final(model)@.wf(),
        !old(model)@.requirements(*goal_id).is_empty() ==> r == Err::<Goal, AppError>(
            AppError::ChildrenGoalsExist,
        ) && final(model)@ == old(model)@,
        old(model)@.requirements(*goal_id).is_empty() && !old(model)@.goals.contains_key(*goal_id)
            ==> r == Err::<Goal, AppError>(AppError::GoalIdNotFound(*goal_id)) && final(model)@
            == old(model)@,
        old(model)@.requirements(*goal_id).is_empty() && old(model)@.goals.contains_key(*goal_id)
            ==> r.is_ok() && r.unwrap()@ == old(model)@.goals[*goal_id] && final(model)@ == old(
            model,
        )@.without_goal(*goal_id),
{
    if let Some(children) = model.children.get(goal_id) {
        if !children.is_empty() {
            return Err(AppError::ChildrenGoalsExist);
        }
    }
    model.children.remove(goal_id);
    proof {
        let old_v = old(model)@;
        assert(model@.children =~= old_v.children.remove(*goal_id));
    }
    match model.goals.remove(goal_id) {
        Some(goal) => {
            proof {
                let old_v = old(model)@;
                assert(model@.goals =~= old_v.goals.remove(*goal_id));
            }
            Ok(goal)
        },
        None => {
            proof {
                let old_v = old(model)@;
                assert(model@.children =~= old_v.children);
                assert(model@.goals =~= old_v.goals);
            }
            Err(AppError::GoalIdNotFound(*goal_id))
        },
    }
}

/// Creating a goal hands out an id that no goal in the store holds and no
/// requirement names, since every id issued so far lies below it; the new
/// goal is not completed, carries the given title, and the registry grows by
/// exactly one.
pub proof fn lemma_new_goal_is_fresh(m: ModelView, title: Seq<char>)
    requires
        m.wf(),
        m.next_id < usize::MAX,
    ensures
        !m.goals.contains_key(m.next_id as GoalId),
        forall|p: GoalId| #[trigger]
            m.children.contains_key(p) ==> !m.children[p].contains(m.next_id as GoalId),
        m.with_goal(title).wf(),
        m.with_goal(title).next_id > m.next_id,
        m.with_goal(title).goals[m.next_id as GoalId] == m.new_goal(title),
        m.new_goal(title).id == m.next_id,
        m.new_goal(title).title == title,
        !m.new_goal(title).completed,
        m.with_goal(title).goals.len() == m.goals.len() + 1,
{
    let n = m.with_goal(title);
    assert forall|p: GoalId, c: GoalId|
        #[trigger] n.children.contains_key(p) && #[trigger] n.children[p].contains(c) implies c
        < n.next_id by {
        assert(m.children.contains_key(p) && m.children[p].contains(c));
    }
}

/// Adding the same requirement twice leaves the store as adding it once.
pub proof fn lemma_add_requirement_idempotent(m: ModelView, p: GoalId, c: GoalId)
    requires
        m.wf(),
        m.goals.contains_key(p),
        m.goals.contains_key(c),
    ensures
        m.with_requirement(p, c).with_requirement(p, c) == m.with_requirement(p, c),
        m.with_requirement(p, c).requirements(p).contains(c),
{
    let once = m.with_requirement(p, c);
    assert(once.requirements(p).insert(c) =~= once.requirements(p));
    assert(once.with_requirement(p, c).children =~= once.children);
}

/// A requirement that was added is there to remove once; after its removal
/// it is gone, so removing it again reports that nothing was removed. A goal
/// without a requirement set requires nothing.
pub proof fn lemma_remove_requirement_once(m: ModelView, p: GoalId, c: GoalId)
    ensures
        m.with_requirement(p, c).requirements(p).contains(c),
        !m.without_requirement(p, c).requirements(p).contains(c),
        !m.children.contains_key(p) ==> !m.requirements(p).contains(c),
{
}

/// A deleted goal is gone from the registry and has no requirement set, so
/// deleting it again fails with `GoalIdNotFound`; the store stays well formed.
pub proof fn lemma_deleted_goal_is_gone(m: ModelView, g: GoalId)
    requires
        m.wf(),
        m.goals.contains_key(g),
        m.requirements(g).is_empty(),
    ensures
        m.without_goal(g).wf(),
        !m.without_goal(g).goals.contains_key(g),
        m.without_goal(g).requirements(g).is_empty(),
{
    let n = m.without_goal(g);
    assert forall|p: GoalId, c: GoalId|
        #[trigger] n.children.contains_key(p) && #[trigger] n.children[p].contains(c) implies c
        < n.next_id by {
        assert(m.children.contains_key(p) && m.children[p].contains(c));
    }
}

/// No goal has an id that was never issued, so deleting such an id fails
/// with `GoalIdNotFound`.
pub proof fn lemma_unissued_id_not_found(m: ModelView, g: GoalId)
    requires
        m.wf(),
        g >= m.next_id,
    ensures
        !m.goals.contains_key(g),
        m.requirements(g).is_empty(),
{
}

} // verus!
