//! Creating private directory trees, one step at a time.
//!
//! A walk says which step comes next, given what came of the step before. It first looks for the
//! deepest component that exists, then creates what is missing from there down, and secures the
//! leaf. An operator's tree may hang below links; a capability's tree must be free of them.

use vstd::prelude::*;

use crate::secret_file::fault::SecretFault;

verus! {

/// A component of a path as it was given.
#[derive(Clone, Copy, Debug, PartialEq, Eq, Structural)]
pub enum TreePart {
    /// A prefix or a root.
    Anchor,
    /// `.`
    Current,
    /// `..`
    Parent,
    /// A name.
    Name,
}

/// The positions of the components other than `.` among the first `n`.
pub open spec fn kept_positions(parts: Seq<TreePart>, n: nat) -> Seq<usize>
    decreases n,
{
    if n == 0 {
        Seq::empty()
    } else if parts[n - 1] is Current {
        kept_positions(parts, (n - 1) as nat)
    } else {
        kept_positions(parts, (n - 1) as nat).push((n - 1) as usize)
    }
}

/// Whether a path goes through a parent.
pub open spec fn climbs(parts: Seq<TreePart>) -> bool {
    exists|i: int| 0 <= i < parts.len() && #[trigger] parts[i] is Parent
}

/// Whether a path ends in a name.
pub open spec fn has_leaf(parts: Seq<TreePart>) -> bool {
    let kept = kept_positions(parts, parts.len());
    kept.len() > 0 && parts[kept.last() as int] is Name
}

/// Normalizes the path of an operator's tree to the positions of its components other than `.`.
/// A path that goes through a parent is refused, and so is one without a leaf.
fn normalize_tree_path(parts: &[TreePart]) -> (r: Result<Vec<usize>, SecretFault>)
    ensures
        match r {
            Ok(kept) => !climbs(parts@) && has_leaf(parts@) && kept@ == kept_positions(
                parts@,
                parts@.len(),
            ),
            Err(fault) => fault == (if climbs(parts@) {
                SecretFault::ParentTraversal
            } else {
                SecretFault::NoLeaf
            }) && (climbs(parts@) || !has_leaf(parts@)),
        },
{
    let mut kept: Vec<usize> = Vec::new();
    let mut i: usize = 0;
    while i < parts.len()
        invariant
            i <= parts.len(),
            kept@ == kept_positions(parts@, i as nat),
            forall|j: int| 0 <= j < i ==> !(#[trigger] parts@[j] is Parent),
            forall|j: int| 0 <= j < kept@.len() ==> #[trigger] kept@[j] < i,
        decreases parts.len() - i,
    {
        match parts[i] {
            TreePart::Current => {},
            TreePart::Parent => {
                assert(parts@[i as int] is Parent);
                return Err(SecretFault::ParentTraversal);
            },
            _ => {
                kept.push(i);
            },
        }
        i = i + 1;
    }
    if kept.len() == 0 {
        return Err(SecretFault::NoLeaf);
    }
    match parts[kept[kept.len() - 1]] {
        TreePart::Name => Ok(kept),
        _ => Err(SecretFault::NoLeaf),
    }
}

/// A step of a walk. Steps count components below the root of the path; component 0 is the root
/// itself.
#[derive(Clone, Copy, Debug, PartialEq, Eq, Structural)]
pub enum TreeStep {
    /// Look at a component itself, without following it.
    Check(usize),
    /// Find out whether a component exists.
    Inspect(usize),
    /// Resolve the deepest existing component.
    Resolve(usize),
    /// Create a component, born private.
    Create(usize),
    /// Secure a component that appeared meanwhile.
    SecureExisting(usize),
    /// Make durable the name of a component that appeared meanwhile.
    SyncExisting(usize),
    /// Secure the leaf.
    SecureLeaf,
    /// Make durable the name of the leaf.
    SyncLeaf,
    /// The tree stands.
    Finished,
    /// A component is refused.
    Refused(SecretFault, usize),
    /// A step failed; its own error stands.
    Stopped,
}

/// What came of a step.
#[derive(Clone, Copy, Debug, PartialEq, Eq, Structural)]
pub enum TreeEvent {
    /// The component is a real directory, or the step succeeded.
    Done,
    /// The component is a link.
    Link,
    /// The component, or what it resolves to, is no directory.
    NotDirectory,
    /// The component does not exist.
    Absent,
    /// The component exists already.
    AlreadyExists,
    /// The step failed.
    Failed,
}

/// A walk towards a tree: whether links are refused, and for each component below the root whether
/// it has a name of its own.
#[derive(Clone, Debug)]
pub struct TreeWalk {
    pub link_free: bool,
    pub named: Vec<bool>,
}

/// Whether a step speaks of components that there are.
pub open spec fn step_fits(step: TreeStep, count: nat) -> bool {
    match step {
        TreeStep::Check(k) => k <= count,
        TreeStep::Inspect(k) => k <= count,
        TreeStep::Resolve(k) => k <= count,
        TreeStep::Create(k) => 0 < k <= count,
        TreeStep::SecureExisting(k) => 0 < k <= count,
        TreeStep::SyncExisting(k) => 0 < k <= count,
        _ => true,
    }
}

/// The first step of a walk.
pub open spec fn first_step(link_free: bool, named: Seq<bool>) -> TreeStep {
    if link_free {
        TreeStep::Check(0)
    } else {
        TreeStep::Inspect(named.len() as usize)
    }
}

/// The step below a component that stands.
pub open spec fn step_below(k: usize, count: nat) -> TreeStep {
    if k < count {
        TreeStep::Create((k + 1) as usize)
    } else {
        TreeStep::SecureLeaf
    }
}

/// The step that follows a step and what came of it.
pub open spec fn next_step(
    link_free: bool,
    named: Seq<bool>,
    step: TreeStep,
    event: TreeEvent,
) -> TreeStep {
    match step {
        TreeStep::Check(k) => match event {
            TreeEvent::Done | TreeEvent::Absent => if k < named.len() {
                TreeStep::Check((k + 1) as usize)
            } else {
                TreeStep::Inspect(k)
            },
            TreeEvent::Link | TreeEvent::NotDirectory => TreeStep::Refused(
                SecretFault::LinkedComponent,
                k,
            ),
            _ => TreeStep::Stopped,
        },
        TreeStep::Inspect(k) => match event {
            TreeEvent::Done => TreeStep::Resolve(k),
            TreeEvent::Link => if link_free {
                TreeStep::Refused(SecretFault::LinkedComponent, k)
            } else {
                TreeStep::Resolve(k)
            },
            TreeEvent::NotDirectory => TreeStep::Refused(
                if link_free {
                    SecretFault::LinkedComponent
                } else {
                    SecretFault::NonDirectoryComponent
                },
                k,
            ),
            TreeEvent::Absent => if k > 0 && named[k - 1] {
                TreeStep::Inspect((k - 1) as usize)
            } else {
                TreeStep::Refused(
                    if link_free {
                        SecretFault::UnnamedComponent
                    } else {
                        SecretFault::NoExistingAncestor
                    },
                    named.len() as usize,
                )
            },
            _ => TreeStep::Stopped,
        },
        TreeStep::Resolve(k) => match event {
            TreeEvent::Done => step_below(k, named.len()),
            TreeEvent::NotDirectory => if link_free {
                step_below(k, named.len())
            } else {
                TreeStep::Refused(SecretFault::AncestorNotDirectory, k)
            },
            _ => TreeStep::Stopped,
        },
        TreeStep::Create(k) => match event {
            TreeEvent::Done => step_below(k, named.len()),
            TreeEvent::AlreadyExists => TreeStep::SecureExisting(k),
            _ => TreeStep::Stopped,
        },
        TreeStep::SecureExisting(k) => match event {
            TreeEvent::Done => TreeStep::SyncExisting(k),
            _ => TreeStep::Stopped,
        },
        TreeStep::SyncExisting(k) => match event {
            TreeEvent::Done => step_below(k, named.len()),
            _ => TreeStep::Stopped,
        },
        TreeStep::SecureLeaf => match event {
            TreeEvent::Done => TreeStep::SyncLeaf,
            _ => TreeStep::Stopped,
        },
        TreeStep::SyncLeaf => match event {
            TreeEvent::Done => TreeStep::Finished,
            _ => TreeStep::Stopped,
        },
        TreeStep::Finished | TreeStep::Refused(..) | TreeStep::Stopped => step,
    }
}

/// Whether a walk is over.
pub open spec fn is_over(step: TreeStep) -> bool {
    step is Finished || step is Refused || step is Stopped
}

/// Whether a step changes the file system.
pub open spec fn mutates(step: TreeStep) -> bool {
    match step {
        TreeStep::Create(_) | TreeStep::SecureExisting(_) | TreeStep::SyncExisting(_)
        | TreeStep::SecureLeaf | TreeStep::SyncLeaf => true,
        _ => false,
    }
}

/// How many steps are left at most.
pub open spec fn steps_left(step: TreeStep, count: nat) -> int {
    let most = 3 * (count as int) + 10;
    match step {
        TreeStep::Check(k) => most + count + 3 + (count - k),
        TreeStep::Inspect(k) => most + 1 + k,
        TreeStep::Resolve(_) => most,
        TreeStep::Create(k) => 3 * (count - k) + 5,
        TreeStep::SecureExisting(k) => 3 * (count - k) + 4,
        TreeStep::SyncExisting(k) => 3 * (count - k) + 3,
        TreeStep::SecureLeaf => 2,
        TreeStep::SyncLeaf => 1,
        _ => 0,
    }
}

/// Every walk ends, whatever comes of its steps.
pub proof fn law_walks_end(link_free: bool, named: Seq<bool>, step: TreeStep, event: TreeEvent)
    requires
        named.len() <= usize::MAX,
        step_fits(step, named.len()),
        !is_over(step),
    ensures
        step_fits(next_step(link_free, named, step, event), named.len()),
        0 <= steps_left(next_step(link_free, named, step, event), named.len()) < steps_left(
            step,
            named.len(),
        ),
{
}

/// A walk that must be free of links refuses one wherever it looks.
pub proof fn law_links_are_refused(named: Seq<bool>, step: TreeStep)
    requires
        step is Check || step is Inspect,
    ensures
        next_step(true, named, step, TreeEvent::Link) is Refused,
        next_step(true, named, step, TreeEvent::NotDirectory) is Refused,
{
}

/// Whether steps follow one another in a walk.
pub open spec fn is_walk(link_free: bool, named: Seq<bool>, steps: Seq<TreeStep>) -> bool {
    &&& named.len() <= usize::MAX
    &&& steps.len() > 0
    &&& steps[0] == first_step(link_free, named)
    &&& forall|i: int| 0 < i < steps.len() ==> #[trigger] follows(link_free, named, steps, i)
}

/// Whether a step follows the one before it, for some event.
pub open spec fn follows(
    link_free: bool,
    named: Seq<bool>,
    steps: Seq<TreeStep>,
    i: int,
) -> bool {
    exists|event: TreeEvent|
        steps[i] == #[trigger] next_step(link_free, named, steps[i - 1], event)
}

/// The component down to which a step has the tree standing or in the making.
pub open spec fn reach(step: TreeStep, count: nat) -> int {
    match step {
        TreeStep::Resolve(k) => k as int,
        TreeStep::Create(k) => k as int,
        TreeStep::SecureExisting(k) => k as int,
        TreeStep::SyncExisting(k) => k as int,
        _ => count as int,
    }
}

/// Whether one of the first `n` steps creates component `k`.
pub open spec fn turned_to(steps: Seq<TreeStep>, n: int, k: usize) -> bool {
    exists|i: int| 0 <= i < n && #[trigger] steps[i] == TreeStep::Create(k)
}

/// Whether the first `n` steps resolved component `d` and then turned to every component below it
/// down to `to`.
pub open spec fn worked_down(steps: Seq<TreeStep>, n: int, d: usize, to: int) -> bool {
    &&& exists|i: int| 0 <= i < n && #[trigger] steps[i] == TreeStep::Resolve(d)
    &&& forall|k: usize| d < k <= to ==> #[trigger] turned_to(steps, n, k)
}

/// A walk that finishes has resolved an existing component and created, or found and secured,
/// every component below it, the leaf last.
pub proof fn law_finished_walks_leave_no_gap(
    link_free: bool,
    named: Seq<bool>,
    steps: Seq<TreeStep>,
)
    requires
        is_walk(link_free, named, steps),
        steps.last() is Finished,
    ensures
        exists|d: usize| #[trigger]
            worked_down(steps, steps.len() as int, d, named.len() as int),
{
    lemma_worked_down(link_free, named, steps, steps.len() - 1);
}

/// Nothing is changed before an existing component has been resolved.
pub proof fn law_nothing_changes_before_resolution(
    link_free: bool,
    named: Seq<bool>,
    steps: Seq<TreeStep>,
    i: int,
)
    requires
        is_walk(link_free, named, steps),
        0 <= i < steps.len(),
        mutates(steps[i]),
    ensures
        exists|j: int| 0 <= j < i && #[trigger] steps[j] is Resolve,
{
    lemma_worked_down(link_free, named, steps, i);
    let d = choose|d: usize| #[trigger]
        worked_down(steps, i + 1, d, reach(steps[i], named.len()));
    let j = choose|j: int| 0 <= j < i + 1 && #[trigger] steps[j] == TreeStep::Resolve(d);
    assert(steps[j] is Resolve);
}

proof fn lemma_worked_down(link_free: bool, named: Seq<bool>, steps: Seq<TreeStep>, i: int)
    requires
        is_walk(link_free, named, steps),
        0 <= i < steps.len(),
    ensures
        step_fits(steps[i], named.len()),
        mutates(steps[i]) || steps[i] is Resolve || steps[i] is Finished ==> exists|d: usize|
            #[trigger]
            worked_down(steps, i + 1, d, reach(steps[i], named.len())),
    decreases i,
{
    if i > 0 {
        lemma_worked_down(link_free, named, steps, i - 1);
        assert(follows(link_free, named, steps, i));
        let event = choose|event: TreeEvent|
            steps[i] == #[trigger] next_step(link_free, named, steps[i - 1], event);
        let before = steps[i - 1];
        if mutates(steps[i]) || steps[i] is Finished {
            let to = reach(before, named.len());
            let d = choose|d: usize| #[trigger] worked_down(steps, i, d, to);
            assert(worked_down(steps, i, d, to));
            let j = choose|j: int| 0 <= j < i && #[trigger] steps[j] == TreeStep::Resolve(d);
            assert(0 <= j < i + 1 && steps[j] == TreeStep::Resolve(d));
            assert forall|k: usize| d < k <= reach(steps[i], named.len()) implies #[trigger]
                turned_to(steps, i + 1, k) by {
                if k <= to {
                    assert(turned_to(steps, i, k));
                    let m = choose|m: int| 0 <= m < i && #[trigger] steps[m] == TreeStep::Create(k);
                    assert(0 <= m < i + 1 && steps[m] == TreeStep::Create(k));
                } else {
                    assert(steps[i] == TreeStep::Create(k));
                }
            }
            assert(worked_down(steps, i + 1, d, reach(steps[i], named.len())));
        } else if steps[i] is Resolve {
            let d = steps[i]->Resolve_0;
            assert(steps[i] == TreeStep::Resolve(d));
            assert(worked_down(steps, i + 1, d, reach(steps[i], named.len())));
        }
    }
}

/// An operator's tree: the positions of the components of its path that count, and the walk towards
/// it.
#[derive(Clone, Debug)]
pub struct OperatorTree {
    pub kept: Vec<usize>,
    pub walk: TreeWalk,
}

/// For each component below the root among the first `n`, whether it has a name of its own.
pub open spec fn name_flags(parts: Seq<TreePart>, n: nat) -> Seq<bool>
    decreases n,
{
    if n == 0 {
        Seq::empty()
    } else if parts[n - 1] is Anchor {
        name_flags(parts, (n - 1) as nat)
    } else {
        name_flags(parts, (n - 1) as nat).push(parts[n - 1] is Name)
    }
}

/// The number of names among the first `n` components.
pub open spec fn name_count(parts: Seq<TreePart>, n: nat) -> nat
    decreases n,
{
    if n == 0 {
        0
    } else if parts[n - 1] is Name {
        name_count(parts, (n - 1) as nat) + 1
    } else {
        name_count(parts, (n - 1) as nat)
    }
}

/// Begins the creation of an operator's tree, `base` names below the root of the directory that its
/// path is relative to. Links may stand above what is created.
pub fn create_private_directory_tree(parts: &[TreePart], base: usize) -> (r: Result<
    OperatorTree,
    SecretFault,
>)
    requires
        base + parts@.len() <= usize::MAX,
    ensures
        match r {
            Ok(tree) => {
                &&& !climbs(parts@)
                &&& has_leaf(parts@)
                &&& tree.kept@ == kept_positions(parts@, parts@.len())
                &&& !tree.walk.link_free
                &&& tree.walk.named@ == Seq::new(
                    base as nat + name_count(parts@, parts@.len()),
                    |i: int| true,
                )
            },
            Err(fault) => fault == (if climbs(parts@) {
                SecretFault::ParentTraversal
            } else {
                SecretFault::NoLeaf
            }) && (climbs(parts@) || !has_leaf(parts@)),
        },
{
    let kept: Vec<usize> = match normalize_tree_path(parts) {
        Ok(kept) => kept,
        Err(fault) => {
            return Err(fault);
        },
    };
    let mut named: Vec<bool> = Vec::new();
    let mut b: usize = 0;
    while b < base
        invariant
            b <= base,
            named@ == Seq::new(b as nat, |i: int| true),
        decreases base - b,
    {
        named.push(true);
        b = b + 1;
        assert(named@ =~= Seq::new(b as nat, |i: int| true));
    }
    let mut i: usize = 0;
    while i < parts.len()
        invariant
            i <= parts.len(),
            named@ == Seq::new(base as nat + name_count(parts@, i as nat), |j: int| true),
        decreases parts.len() - i,
    {
        if let TreePart::Name = parts[i] {
            named.push(true);
        }
        i = i + 1;
        assert(named@ =~= Seq::new(base as nat + name_count(parts@, i as nat), |j: int| true));
    }
    Ok(OperatorTree { kept, walk: TreeWalk { link_free: false, named } })
}

/// Begins the creation of a tree that must be free of links, from its path as it stands.
pub fn secure_private_directory_tree(parts: &[TreePart]) -> (walk: TreeWalk)
    ensures
        walk.link_free,
        walk.named@ == name_flags(parts@, parts@.len()),
{
    let mut named: Vec<bool> = Vec::new();
    let mut i: usize = 0;
    while i < parts.len()
        invariant
            i <= parts.len(),
            named@ == name_flags(parts@, i as nat),
        decreases parts.len() - i,
    {
        match parts[i] {
            TreePart::Anchor => {},
            TreePart::Name => {
                named.push(true);
            },
            _ => {
                named.push(false);
            },
        }
        i = i + 1;
    }
    TreeWalk { link_free: true, named }
}

impl TreeWalk {
    /// The first step.
    pub fn first(&self) -> (step: TreeStep)
        ensures
            step == first_step(self.link_free, self.named@),
            step_fits(step, self.named@.len()),
    {
        if self.link_free {
            TreeStep::Check(0)
        } else {
            TreeStep::Inspect(self.named.len())
        }
    }

    /// The step below a component that stands.
    fn below(&self, k: usize) -> (step: TreeStep)
        requires
            k <= self.named.len(),
        ensures
            step == step_below(k, self.named@.len()),
            step_fits(step, self.named@.len()),
    {
        if k < self.named.len() {
            TreeStep::Create(k + 1)
        } else {
            TreeStep::SecureLeaf
        }
    }

    /// The step that follows a step and what came of it.
    pub fn next(&self, step: TreeStep, event: TreeEvent) -> (following: TreeStep)
        requires
            step_fits(step, self.named@.len()),
        ensures
            following == next_step(self.link_free, self.named@, step, event),
            step_fits(following, self.named@.len()),
    {
        match step {
            TreeStep::Check(k) => match event {
                TreeEvent::Done | TreeEvent::Absent => if k < self.named.len() {
                    TreeStep::Check(k + 1)
                } else {
                    TreeStep::Inspect(k)
                },
                TreeEvent::Link | TreeEvent::NotDirectory => TreeStep::Refused(
                    SecretFault::LinkedComponent,
                    k,
                ),
                _ => TreeStep::Stopped,
            },
            TreeStep::Inspect(k) => match event {
                TreeEvent::Done => TreeStep::Resolve(k),
                TreeEvent::Link => if self.link_free {
                    TreeStep::Refused(SecretFault::LinkedComponent, k)
                } else {
                    TreeStep::Resolve(k)
                },
                TreeEvent::NotDirectory => if self.link_free {
                    TreeStep::Refused(SecretFault::LinkedComponent, k)
                } else {
                    TreeStep::Refused(SecretFault::NonDirectoryComponent, k)
                },
                TreeEvent::Absent => if k > 0 && self.named[k - 1] {
                    TreeStep::Inspect(k - 1)
                } else if self.link_free {
                    TreeStep::Refused(SecretFault::UnnamedComponent, self.named.len())
                } else {
                    TreeStep::Refused(SecretFault::NoExistingAncestor, self.named.len())
                },
                _ => TreeStep::Stopped,
            },
            TreeStep::Resolve(k) => match event {
                TreeEvent::Done => self.below(k),
                TreeEvent::NotDirectory => if self.link_free {
                    self.below(k)
                } else {
                    TreeStep::Refused(SecretFault::AncestorNotDirectory, k)
                },
                _ => TreeStep::Stopped,
            },
            TreeStep::Create(k) => match event {
                TreeEvent::Done => self.below(k),
                TreeEvent::AlreadyExists => TreeStep::SecureExisting(k),
                _ => TreeStep::Stopped,
            },
            TreeStep::SecureExisting(k) => match event {
                TreeEvent::Done => TreeStep::SyncExisting(k),
                _ => TreeStep::Stopped,
            },
            TreeStep::SyncExisting(k) => match event {
                TreeEvent::Done => self.below(k),
                _ => TreeStep::Stopped,
            },
            TreeStep::SecureLeaf => match event {
                TreeEvent::Done => TreeStep::SyncLeaf,
                _ => TreeStep::Stopped,
            },
            TreeStep::SyncLeaf => match event {
                TreeEvent::Done => TreeStep::Finished,
                _ => TreeStep::Stopped,
            },
            _ => step,
        }
    }
}

/// The kept positions are those of all parts but the steps to the same directory, in order.
pub proof fn law_kept_positions_are_all_but_current(parts: Seq<TreePart>, n: nat)
    requires
        n <= parts.len(),
        parts.len() <= usize::MAX,
    ensures
        forall|i: int|
            0 <= i < n ==> ((#[trigger] parts[i]) !is Current <==> kept_positions(
                parts,
                n,
            ).contains(i as usize)),
        forall|j: int|
            0 <= j < kept_positions(parts, n).len() ==> (#[trigger] kept_positions(parts, n)[j])
                < n,
        forall|j: int, k: int|
            0 <= j < k < kept_positions(parts, n).len() ==> #[trigger] kept_positions(parts, n)[j]
                < #[trigger] kept_positions(parts, n)[k],
    decreases n,
{
    if n > 0 {
        let m = (n - 1) as nat;
        law_kept_positions_are_all_but_current(parts, m);
        let before = kept_positions(parts, m);
        let all = kept_positions(parts, n);
        assert forall|i: int| 0 <= i < n implies ((#[trigger] parts[i]) !is Current
            <==> all.contains(i as usize)) by {
            if i < m {
                if before.contains(i as usize) {
                    let j = choose|j: int| 0 <= j < before.len() && before[j] == i as usize;
                    assert(all[j] == i as usize);
                }
                if all.contains(i as usize) {
                    let j = choose|j: int| 0 <= j < all.len() && all[j] == i as usize;
                    assert(j < before.len());
                    assert(before[j] == i as usize);
                }
            } else if parts[i] !is Current {
                assert(all[all.len() - 1] == i as usize);
            } else if all.contains(i as usize) {
                let j = choose|j: int| 0 <= j < all.len() && all[j] == i as usize;
                assert(before[j] < m);
            }
        }
    }
}

/// There is a flag for every part but anchors, and it says whether the part is a name; the flags that
/// are set are as many as there are names.
pub proof fn law_flags_tell_names(parts: Seq<TreePart>, n: nat)
    requires
        n < parts.len(),
    ensures
        name_flags(parts, n + 1) == if parts[n as int] is Anchor {
            name_flags(parts, n)
        } else {
            name_flags(parts, n).push(parts[n as int] is Name)
        },
        name_flags(parts, 0).len() == 0,
        name_count(parts, n + 1) - name_count(parts, n) == if parts[n as int] is Name {
            1int
        } else {
            0
        },
        name_count(parts, 0) == 0,
{
}

/// A directory that is there already is secured and synced before the walk goes on below it, and so
/// is the leaf before the walk ends; where any of this does not succeed, the walk stops.
pub proof fn law_existing_directories_are_secured(
    link_free: bool,
    named: Seq<bool>,
    k: usize,
    event: TreeEvent,
)
    requires
        0 < k <= named.len(),
        named.len() <= usize::MAX,
    ensures
        next_step(link_free, named, TreeStep::Create(k), TreeEvent::AlreadyExists)
            == TreeStep::SecureExisting(k),
        next_step(link_free, named, TreeStep::SecureExisting(k), event) == if event is Done {
            TreeStep::SyncExisting(k)
        } else {
            TreeStep::Stopped
        },
        next_step(link_free, named, TreeStep::SyncExisting(k), event) == if event is Done {
            if k < named.len() {
                TreeStep::Create((k + 1) as usize)
            } else {
                TreeStep::SecureLeaf
            }
        } else {
            TreeStep::Stopped
        },
        next_step(link_free, named, TreeStep::Create(k), TreeEvent::Done) == if k < named.len() {
            TreeStep::Create((k + 1) as usize)
        } else {
            TreeStep::SecureLeaf
        },
        next_step(link_free, named, TreeStep::SecureLeaf, event) == if event is Done {
            TreeStep::SyncLeaf
        } else {
            TreeStep::Stopped
        },
        next_step(link_free, named, TreeStep::SyncLeaf, event) == if event is Done {
            TreeStep::Finished
        } else {
            TreeStep::Stopped
        },
{
}

/// A walk that admits no links checks every directory from the top on before it inspects, and a walk
/// looks for the lowest directory that is there from the bottom up.
pub proof fn law_walks_look_before_they_create(
    link_free: bool,
    named: Seq<bool>,
    k: usize,
)
    requires
        k <= named.len(),
        named.len() <= usize::MAX,
    ensures
        first_step(true, named) == TreeStep::Check(0),
        first_step(false, named) == TreeStep::Inspect(named.len() as usize),
        next_step(link_free, named, TreeStep::Check(k), TreeEvent::Done) == if k < named.len() {
            TreeStep::Check((k + 1) as usize)
        } else {
            TreeStep::Inspect(k)
        },
        next_step(link_free, named, TreeStep::Inspect(k), TreeEvent::Done) == TreeStep::Resolve(k),
        k > 0 && named[k - 1] ==> next_step(
            link_free,
            named,
            TreeStep::Inspect(k),
            TreeEvent::Absent,
        ) == TreeStep::Inspect((k - 1) as usize),
        k > 0 && !named[k - 1] ==> next_step(
            link_free,
            named,
            TreeStep::Inspect(k),
            TreeEvent::Absent,
        ) is Refused,
        next_step(link_free, named, TreeStep::Inspect(0), TreeEvent::Absent) is Refused,
        next_step(link_free, named, TreeStep::Resolve(k), TreeEvent::Done) == if k < named.len() {
            TreeStep::Create((k + 1) as usize)
        } else {
            TreeStep::SecureLeaf
        },
        next_step(false, named, TreeStep::Resolve(k), TreeEvent::NotDirectory) is Refused,
        next_step(false, named, TreeStep::Inspect(k), TreeEvent::NotDirectory) is Refused,
{
}

/// A path climbs where any of its parts does, and has a leaf where the last part that is not the current
/// directory is a name; parts that are the current directory change neither.
pub proof fn law_paths_with_a_leaf(parts: Seq<TreePart>, part: TreePart)
    requires
        parts.len() < usize::MAX,
    ensures
        climbs(parts.push(part)) <==> climbs(parts) || part is Parent,
        !climbs(Seq::empty()),
        part is Name ==> has_leaf(parts.push(part)),
        part is Current ==> (has_leaf(parts.push(part)) <==> has_leaf(parts)),
        part !is Name && part !is Current ==> !has_leaf(parts.push(part)),
        !has_leaf(Seq::empty()),
{
    let longer = parts.push(part);
    if climbs(parts) {
        let i = choose|i: int| 0 <= i < parts.len() && #[trigger] parts[i] is Parent;
        assert(longer[i] is Parent);
    }
    if part is Parent {
        assert(longer[parts.len() as int] is Parent);
    }
    if climbs(longer) {
        let i = choose|i: int| 0 <= i < longer.len() && #[trigger] longer[i] is Parent;
        if i < parts.len() {
            assert(parts[i] is Parent);
        }
    }
    lemma_kept_prefix(longer, parts, parts.len());
    law_kept_positions_are_all_but_current(parts, parts.len());
    let kept = kept_positions(parts, parts.len());
    if kept.len() > 0 {
        assert(kept[kept.len() - 1] < parts.len());
        assert(longer[kept.last() as int] == parts[kept.last() as int]);
    }
}

proof fn lemma_kept_prefix(a: Seq<TreePart>, b: Seq<TreePart>, n: nat)
    requires
        n <= a.len(),
        n <= b.len(),
        forall|i: int| 0 <= i < n ==> a[i] == b[i],
    ensures
        kept_positions(a, n) == kept_positions(b, n),
    decreases n,
{
    if n > 0 {
        lemma_kept_prefix(a, b, (n - 1) as nat);
    }
}

} // verus!
