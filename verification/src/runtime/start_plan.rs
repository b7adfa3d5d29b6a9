//! The order in which commands can be started.
use crate::runtime::{StartCommand, StartView};
use crate::text::split::{self, join_strings};
use crate::text::{self, concat, concat3, same};
use vstd::prelude::*;

verus! {

broadcast use text::lemma_views_push;

/// The index of the last command with a name, or the number of commands.
pub open spec fn named(commands: Seq<StartView>, name: Seq<char>) -> int
    decreases commands.len(),
{
    named_within(commands, name, commands.len() as int)
}

/// The index of the last of the first so many commands with a name, or the
/// number of commands.
pub open spec fn named_within(commands: Seq<StartView>, name: Seq<char>, count: int) -> int
    decreases count,
{
    if count <= 0 {
        commands.len() as int
    } else if commands[count - 1].name == name {
        count - 1
    } else {
        named_within(commands, name, count - 1)
    }
}

/// The commands that a command waits for.
pub open spec fn waits(commands: Seq<StartView>, index: int) -> Seq<int> {
    Seq::new(
        commands[index].wait_for.len(),
        |i: int| named(commands, commands[index].wait_for[i]),
    )
}

/// The first dependency of a command that is no command, or the number of its
/// dependencies.
pub open spec fn unknown_in(commands: Seq<StartView>, wait_for: Seq<Seq<char>>) -> int
    decreases wait_for.len(),
{
    if wait_for.len() == 0 || named(commands, wait_for[0]) == commands.len() {
        0
    } else {
        1 + unknown_in(commands, wait_for.drop_first())
    }
}

/// The first command from an index on that waits for something that is no
/// command, or the number of commands.
pub open spec fn unknown_from(commands: Seq<StartView>, index: int) -> int
    decreases commands.len() - index,
{
    if index >= commands.len() {
        commands.len() as int
    } else if unknown_in(commands, commands[index].wait_for) < commands[index].wait_for.len() {
        index
    } else {
        unknown_from(commands, index + 1)
    }
}

/// The cycle that a path runs into: the path from where it comes back to, and
/// that command again.
pub open spec fn closed(path: Seq<int>, repeated: int) -> Seq<int> {
    path.skip(path.index_of(repeated)).push(repeated)
}

/// The cycle found by following what commands wait for, from the end of a path
/// on, in the order in which it is written, beginning with the dependency at
/// `position`.
pub open spec fn cycle_from(graph: Seq<Seq<int>>, path: Seq<int>, position: int) -> Option<Seq<int>>
    decreases graph.len() + 1 - path.len(), graph[path.last()].len() - position,
{
    if path.len() > graph.len() || position < 0 || position >= graph[path.last()].len() {
        None
    } else {
        let next = graph[path.last()][position];
        let found = if path.contains(next) {
            Some(closed(path, next))
        } else {
            cycle_from(graph, path.push(next), 0)
        };
        match found {
            Some(cycle) => Some(cycle),
            None => cycle_from(graph, path, position + 1),
        }
    }
}

/// The cycle found from the first command, from an index on, that runs into
/// one.
pub open spec fn first_cycle(graph: Seq<Seq<int>>, index: int) -> Option<Seq<int>>
    decreases graph.len() - index,
{
    if index >= graph.len() {
        None
    } else {
        match cycle_from(graph, seq![index], 0) {
            Some(cycle) => Some(cycle),
            None => first_cycle(graph, index + 1),
        }
    }
}

/// What each command waits for.
pub open spec fn graph_of(commands: Seq<StartView>) -> Seq<Seq<int>> {
    Seq::new(commands.len(), |i: int| waits(commands, i))
}

/// The names of some commands.
pub open spec fn names_of(commands: Seq<StartView>, indexes: Seq<int>) -> Seq<Seq<char>> {
    Seq::new(indexes.len(), |i: int| commands[indexes[i]].name)
}

/// What is wrong with a plan.
pub enum PlanErrorView {
    UnknownDependency { command: Seq<char>, dependency: Seq<char> },
    DependencyCycle { cycle: Seq<Seq<char>> },
}

/// What is wrong with commands that are started together.
pub open spec fn plan_error(commands: Seq<StartView>) -> Option<PlanErrorView> {
    let unknown = unknown_from(commands, 0);
    if unknown < commands.len() {
        let command = commands[unknown];
        Some(
            PlanErrorView::UnknownDependency {
                command: command.name,
                dependency: command.wait_for[unknown_in(commands, command.wait_for)],
            },
        )
    } else {
        match first_cycle(graph_of(commands), 0) {
            Some(cycle) => Some(
                PlanErrorView::DependencyCycle { cycle: names_of(commands, cycle) },
            ),
            None => None,
        }
    }
}

impl PlanErrorView {
    /// The error in words.
    pub open spec fn message(self) -> Seq<char> {
        match self {
            PlanErrorView::UnknownDependency { command, dependency } => "command '"@ + command
                + "' waits for unknown command '"@ + dependency + "'"@,
            PlanErrorView::DependencyCycle { cycle } => "command dependency cycle detected: "@
                + split::join(cycle, " -> "@),
        }
    }
}

/// What is wrong with a plan.
#[derive(Debug, PartialEq, Eq)]
pub enum StartPlanError {
    UnknownDependency { command: String, dependency: String },
    DependencyCycle { cycle: Vec<String> },
}

impl View for StartPlanError {
    type V = PlanErrorView;

    open spec fn view(&self) -> PlanErrorView {
        match self {
            StartPlanError::UnknownDependency { command, dependency } => {
                PlanErrorView::UnknownDependency { command: command@, dependency: dependency@ }
            },
            StartPlanError::DependencyCycle { cycle } => PlanErrorView::DependencyCycle {
                cycle: text::views(cycle@),
            },
        }
    }
}

impl StartPlanError {
    /// The error in words.
    pub fn message(&self) -> (result: String)
        ensures
            result@ == self@.message(),
    {
        match self {
            StartPlanError::UnknownDependency { command, dependency } => {
                let head = concat3(
                    "command '",
                    command.as_str(),
                    "' waits for unknown command '",
                );
                concat3(head.as_str(), dependency.as_str(), "'")
            },
            StartPlanError::DependencyCycle { cycle } => concat(
                "command dependency cycle detected: ",
                join_strings(cycle, " -> ").as_str(),
            ),
        }
    }
}

/// How far the following of dependencies has come with a command.
#[derive(Debug, Clone, Copy, PartialEq, Eq, Structural)]
pub enum VisitState {
    Unvisited,
    Visiting,
    Visited,
}

/// Whether a graph leads only to its own nodes.
pub open spec fn is_graph(graph: Seq<Seq<int>>) -> bool {
    forall|i: int, j: int|
        0 <= i < graph.len() && 0 <= j < graph[i].len() ==> 0 <= #[trigger] graph[i][j]
            < graph.len()
}

/// Whether every node in a set has a rank above those that it leads to, all of
/// them in the set.
pub open spec fn ranked(graph: Seq<Seq<int>>, done: Seq<bool>, rank: Seq<int>) -> bool {
    &&& done.len() == graph.len()
    &&& rank.len() == graph.len()
    &&& forall|i: int| 0 <= i < graph.len() ==> #[trigger] rank[i] >= 0
    &&& forall|i: int, j: int|
        0 <= i < graph.len() && done[i] && 0 <= j < graph[i].len() ==> done[#[trigger] graph[i][j]]
            && rank[graph[i][j]] < rank[i]
}

/// A path in order: within the graph, no node twice.
pub open spec fn is_path(graph: Seq<Seq<int>>, path: Seq<int>) -> bool {
    &&& forall|i: int| 0 <= i < path.len() ==> 0 <= #[trigger] path[i] < graph.len()
    &&& path.no_duplicates()
}

proof fn lemma_path_fits(graph: Seq<Seq<int>>, path: Seq<int>)
    requires
        is_path(graph, path),
    ensures
        path.len() <= graph.len(),
{
    let all = Set::new(|i: int| 0 <= i < graph.len());
    vstd::set_lib::lemma_int_range(0, graph.len() as int);
    assert(all =~= vstd::set_lib::set_int_range(0, graph.len() as int));
    path.unique_seq_to_set();
    assert(path.to_set().subset_of(all)) by {
        assert forall|x: int| path.to_set().contains(x) implies all.contains(x) by {
            let i = choose|i: int| 0 <= i < path.len() && path[i] == x;
            assert(0 <= path[i] < graph.len());
        }
    }
    vstd::set_lib::lemma_len_subset(path.to_set(), all);
}

/// From a node of a ranked set no cycle is found, whatever path leads to it,
/// as long as the nodes of the path within the set come in falling rank.
proof fn lemma_ranked_has_no_cycle(
    graph: Seq<Seq<int>>,
    done: Seq<bool>,
    rank: Seq<int>,
    path: Seq<int>,
    position: int,
)
    requires
        is_graph(graph),
        ranked(graph, done, rank),
        is_path(graph, path),
        path.len() > 0,
        done[path.last()],
        position >= 0,
        forall|i: int|
            0 <= i < path.len() ==> !done[#[trigger] path[i]] || rank[path[i]] >= rank[path.last()],
    ensures
        cycle_from(graph, path, position) is None,
    decreases rank[path.last()], graph[path.last()].len() - position,
{
    if path.len() <= graph.len() && position < graph[path.last()].len() {
        let next = graph[path.last()][position];
        assert(done[next] && rank[next] < rank[path.last()]);
        assert(!path.contains(next)) by {
            if path.contains(next) {
                let i = choose|i: int| 0 <= i < path.len() && path[i] == next;
                assert(!done[path[i]] || rank[path[i]] >= rank[path.last()]);
            }
        }
        let longer = path.push(next);
        assert(is_path(graph, longer));
        assert forall|i: int| 0 <= i < longer.len() implies !done[#[trigger] longer[i]]
            || rank[longer[i]] >= rank[longer.last()] by {
            if i < path.len() {
                assert(longer[i] == path[i]);
            }
        }
        lemma_ranked_has_no_cycle(graph, done, rank, longer, 0);
        lemma_ranked_has_no_cycle(graph, done, rank, path, position + 1);
    }
}

/// A plan for starting commands together.
#[derive(Debug)]
pub struct StartPlan<'a> {
    commands: &'a [StartCommand],
    dependencies: Vec<Vec<usize>>,
}

/// The views of lists of indexes.
pub open spec fn index_views(lists: Seq<Vec<usize>>) -> Seq<Seq<int>> {
    Seq::new(lists.len(), |i: int| Seq::new(lists[i]@.len(), |j: int| lists[i]@[j] as int))
}

/// The indexes as numbers.
pub open spec fn as_ints(indexes: Seq<usize>) -> Seq<int> {
    Seq::new(indexes.len(), |i: int| indexes[i] as int)
}

/// Which nodes are done with.
pub open spec fn done_states(states: Seq<VisitState>) -> Seq<bool> {
    Seq::new(states.len(), |i: int| states[i] == VisitState::Visited)
}

/// How many nodes have not been come to.
pub open spec fn unvisited(states: Seq<VisitState>) -> nat
    decreases states.len(),
{
    if states.len() == 0 {
        0
    } else {
        unvisited(states.drop_last()) + if states.last() == VisitState::Unvisited {
            1nat
        } else {
            0nat
        }
    }
}

proof fn lemma_unvisited_update(states: Seq<VisitState>, index: int, state: VisitState)
    requires
        0 <= index < states.len(),
        state != VisitState::Unvisited,
    ensures
        unvisited(states.update(index, state)) == unvisited(states) - if states[index]
            == VisitState::Unvisited {
            1int
        } else {
            0int
        },
    decreases states.len(),
{
    let after = states.update(index, state);
    if index == states.len() - 1 {
        assert(after.drop_last() =~= states.drop_last());
    } else {
        assert(after.drop_last() =~= states.drop_last().update(index, state));
        lemma_unvisited_update(states.drop_last(), index, state);
    }
}

/// The index of the last command with a name, or the number of commands.
fn find_command(commands: &[StartCommand], name: &str) -> (result: usize)
    ensures
        result == named(text::views(commands@), name@),
        result <= commands@.len(),
{
    let ghost all = text::views(commands@);
    let mut count: usize = commands.len();
    while count > 0
        invariant
            count <= commands@.len(),
            all == text::views(commands@),
            named(all, name@) == named_within(all, name@, count as int),
        decreases count,
    {
        if same(commands[count - 1].name.as_str(), name) {
            return count - 1;
        }
        count -= 1;
    }
    commands.len()
}

fn find_dependencies(commands: &[StartCommand], index: usize) -> (result: Result<
    Vec<usize>,
    StartPlanError,
>)
    requires
        index < commands@.len(),
    ensures
        ({
            let all = text::views(commands@);
            let wait_for = all[index as int].wait_for;
            let unknown = unknown_in(all, wait_for);
            match result {
                Ok(indexes) => {
                    &&& unknown == wait_for.len()
                    &&& as_ints(indexes@) == waits(all, index as int)
                    &&& forall|i: int|
                        0 <= i < indexes@.len() ==> (#[trigger] indexes@[i]) < commands@.len()
                },
                Err(error) => {
                    &&& unknown < wait_for.len()
                    &&& error@ == (PlanErrorView::UnknownDependency {
                        command: all[index as int].name,
                        dependency: wait_for[unknown],
                    })
                },
            }
        }),
{
    let ghost all = text::views(commands@);
    let ghost wait_for = all[index as int].wait_for;
    let command = &commands[index];
    assert(wait_for == text::views(command.wait_for@));
    let mut indexes: Vec<usize> = Vec::new();
    let mut i: usize = 0;
    assert(wait_for.skip(0) =~= wait_for);
    while i < command.wait_for.len()
        invariant
            i <= command.wait_for@.len(),
            all == text::views(commands@),
            index < commands@.len(),
            *command == commands@[index as int],
            wait_for == text::views(command.wait_for@),
            wait_for == all[index as int].wait_for,
            indexes@.len() == i,
            unknown_in(all, wait_for) == i + unknown_in(all, wait_for.skip(i as int)),
            forall|j: int| 0 <= j < i ==> (#[trigger] indexes@[j]) == named(all, wait_for[j]),
            forall|j: int| 0 <= j < i ==> (#[trigger] indexes@[j]) < commands@.len(),
        decreases command.wait_for@.len() - i,
    {
        assert(wait_for.skip(i as int)[0] == command.wait_for@[i as int]@);
        let found = find_command(commands, command.wait_for[i].as_str());
        if found == commands.len() {
            return Err(
                StartPlanError::UnknownDependency {
                    command: command.name.clone(),
                    dependency: command.wait_for[i].clone(),
                },
            );
        }
        indexes.push(found);
        assert(wait_for.skip(i as int).drop_first() =~= wait_for.skip(i + 1));
        i += 1;
    }
    assert(as_ints(indexes@) =~= waits(all, index as int));
    Ok(indexes)
}

impl<'a> StartPlan<'a> {
    /// The commands of the plan.
    pub closed spec fn commands(&self) -> Seq<StartView> {
        text::views(self.commands@)
    }

    /// What holds of every plan: its dependencies are those of its commands,
    /// and all of them are commands of the plan.
    pub closed spec fn wf(&self) -> bool {
        &&& index_views(self.dependencies@) == graph_of(self.commands())
        &&& is_graph(graph_of(self.commands()))
    }

    /// The graph of a plan leads only to its commands.
    pub proof fn lemma_graph(&self)
        requires
            self.wf(),
        ensures
            is_graph(graph_of(self.commands())),
    {
    }

    /// Plans the start of commands.
    pub fn new(commands: &'a [StartCommand]) -> (result: Result<Self, StartPlanError>)
        ensures
            match result {
                Ok(plan) => {
                    &&& plan_error(text::views(commands@)) is None
                    &&& plan.commands() == text::views(commands@)
                    &&& plan.wf()
                },
                Err(error) => plan_error(text::views(commands@)) == Some(error@),
            },
    {
        let ghost all = text::views(commands@);
        let mut dependencies: Vec<Vec<usize>> = Vec::new();
        let mut i: usize = 0;
        assert(index_views(dependencies@) =~= graph_of(all).take(0));
        while i < commands.len()
            invariant
                i <= commands@.len(),
                all == text::views(commands@),
                dependencies@.len() == i,
                index_views(dependencies@) == graph_of(all).take(i as int),
                unknown_from(all, 0) == unknown_from(all, i as int),
                forall|x: int, y: int|
                    0 <= x < i && 0 <= y < graph_of(all)[x].len() ==> 0 <= #[trigger] graph_of(
                        all,
                    )[x][y] < all.len(),
            decreases commands@.len() - i,
        {
            match find_dependencies(commands, i) {
                Err(error) => {
                    return Err(error);
                },
                Ok(indexes) => {
                    let ghost graph = graph_of(all);
                    let ghost before = index_views(dependencies@);
                    dependencies.push(indexes);
                    assert(graph[i as int] == as_ints(indexes@));
                    assert(index_views(dependencies@) =~= before.push(as_ints(indexes@)));
                    assert(graph.take(i + 1) =~= graph.take(i as int).push(graph[i as int]));
                    assert forall|x: int, y: int|
                        0 <= x < i + 1 && 0 <= y < graph[x].len() implies 0
                        <= #[trigger] graph[x][y] < all.len() by {
                        if x == i {
                            assert(graph[x][y] == indexes@[y]);
                        }
                    }
                },
            }
            i += 1;
        }
        let ghost graph = graph_of(all);
        assert(graph.take(i as int) =~= graph);
        let plan = StartPlan { commands, dependencies };
        match plan.find_cycle() {
            Some(cycle) => Err(StartPlanError::DependencyCycle { cycle }),
            None => Ok(plan),
        }
    }

    /// How many commands there are.
    pub fn len(&self) -> (result: usize)
        ensures
            result == self.commands().len(),
    {
        self.commands.len()
    }

    /// A command.
    pub fn command(&self, index: usize) -> (result: &StartCommand)
        requires
            index < self.commands().len(),
        ensures
            result@ == self.commands()[index as int],
    {
        &self.commands[index]
    }

    /// The commands that a command waits for.
    pub fn dependency_indexes(&self, index: usize) -> (result: &Vec<usize>)
        requires
            self.wf(),
            index < self.commands().len(),
        ensures
            as_ints(result@) == waits(self.commands(), index as int),
            forall|i: int|
                0 <= i < result@.len() ==> (#[trigger] result@[i]) < self.commands().len(),
    {
        let ghost graph = graph_of(self.commands());
        assert(index_views(self.dependencies@).len() == self.dependencies@.len());
        assert(index_views(self.dependencies@)[index as int] == graph[index as int]);
        let result = &self.dependencies[index];
        assert(as_ints(result@) =~= graph[index as int]);
        assert forall|i: int| 0 <= i < result@.len() implies (#[trigger] result@[i])
            < self.commands().len() by {
            assert(graph[index as int][i] == result@[i]);
        }
        result
    }

    fn find_cycle(&self) -> (result: Option<Vec<String>>)
        requires
            self.wf(),
        ensures
            match result {
                Some(names) => first_cycle(graph_of(self.commands()), 0) is Some && text::views(
                    names@,
                ) == names_of(
                    self.commands(),
                    first_cycle(graph_of(self.commands()), 0)->0,
                ),
                None => first_cycle(graph_of(self.commands()), 0) is None,
            },
    {
        let ghost graph = graph_of(self.commands());
        let mut states: Vec<VisitState> = Vec::new();
        let mut k: usize = 0;
        while k < self.commands.len()
            invariant
                k <= self.commands@.len(),
                states@.len() == k,
                forall|j: int| 0 <= j < k ==> (#[trigger] states@[j]) == VisitState::Unvisited,
            decreases self.commands@.len() - k,
        {
            states.push(VisitState::Unvisited);
            k += 1;
        }
        let mut stack: Vec<usize> = Vec::new();
        let mut index: usize = 0;
        let ghost mut rank: Seq<int> = Seq::new(graph.len(), |j: int| 0int);
        assert(ranked(graph, done_states(states@), rank));
        while index < self.commands.len()
            invariant
                index <= self.commands@.len(),
                self.wf(),
                graph == graph_of(self.commands()),
                states@.len() == graph.len(),
                stack@.len() == 0,
                ranked(graph, done_states(states@), rank),
                forall|j: int|
                    0 <= j < states@.len() ==> (#[trigger] states@[j]) != VisitState::Visiting,
                first_cycle(graph, 0) == first_cycle(graph, index as int),
            decreases self.commands@.len() - index,
        {
            let ghost path = seq![index as int];
            assert(as_ints(stack@).push(index as int) =~= path);
            if states[index] == VisitState::Visited {
                proof {
                    assert(is_path(graph, path));
                    lemma_ranked_has_no_cycle(graph, done_states(states@), rank, path, 0);
                }
            } else {
                let (found, Ghost(after)) = self.visit_dependencies(
                    index,
                    &mut states,
                    &mut stack,
                    Ghost(rank),
                );
                match found {
                    Some(names) => {
                        return Some(names);
                    },
                    None => {
                        proof {
                            rank = after;
                        }
                        assert(as_ints(stack@) =~= Seq::<int>::empty());
                    },
                }
            }
            index += 1;
        }
        None
    }

    /// Follows the dependencies of a command that has not been come to. The
    /// stack holds the path to it.
    fn visit_dependencies(
        &self,
        index: usize,
        states: &mut Vec<VisitState>,
        stack: &mut Vec<usize>,
        Ghost(rank): Ghost<Seq<int>>,
    ) -> (result: (Option<Vec<String>>, Ghost<Seq<int>>))
        requires
            self.wf(),
            index < self.commands().len(),
            old(states)@.len() == self.commands().len(),
            old(states)@[index as int] == VisitState::Unvisited,
            ranked(graph_of(self.commands()), done_states(old(states)@), rank),
            is_path(graph_of(self.commands()), as_ints(old(stack)@)),
            forall|i: int|
                0 <= i < old(states)@.len() ==> ((#[trigger] old(states)@[i])
                    == VisitState::Visiting <==> as_ints(old(stack)@).contains(i)),
        ensures
            ({
                let graph = graph_of(self.commands());
                let found = cycle_from(graph, as_ints(old(stack)@).push(index as int), 0);
                match result.0 {
                    Some(names) => found is Some && text::views(names@) == names_of(
                        self.commands(),
                        found->0,
                    ),
                    None => {
                        &&& found is None
                        &&& final(stack)@ == old(stack)@
                        &&& final(states)@.len() == old(states)@.len()
                        &&& final(states)@[index as int] == VisitState::Visited
                        &&& unvisited(final(states)@) < unvisited(old(states)@)
                        &&& ranked(graph, done_states(final(states)@), result.1@)
                        &&& forall|i: int|
                            0 <= i < final(states)@.len() ==> ((#[trigger] final(states)@[i])
                                == VisitState::Visiting <==> old(states)@[i]
                                == VisitState::Visiting)
                        &&& forall|i: int|
                            0 <= i < final(states)@.len() && old(states)@[i] == VisitState::Visited
                                ==> (#[trigger] final(states)@[i]) == VisitState::Visited
                    },
                }
            }),
        decreases unvisited(old(states)@),
    {
        let ghost graph = graph_of(self.commands());
        let ghost start = states@;
        let ghost before = as_ints(stack@);
        let ghost path = before.push(index as int);
        proof {
            lemma_unvisited_update(states@, index as int, VisitState::Visiting);
        }
        states[index] = VisitState::Visiting;
        stack.push(index);
        assert(as_ints(stack@) =~= path);
        assert(!before.contains(index as int));
        assert(is_path(graph, path));
        proof {
            lemma_path_fits(graph, path);
            assert(path.last() == index);
            assert(path.contains(index as int)) by {
                assert(path[path.len() - 1] == index);
            }
        }
        let ghost entered = states@;
        assert(done_states(entered) =~= done_states(start));
        assert forall|i: int| 0 <= i < entered.len() implies ((#[trigger] entered[i])
            == VisitState::Visiting <==> path.contains(i)) by {
            if i != index {
                assert(entered[i] == start[i]);
                if before.contains(i) {
                    let k = choose|k: int| 0 <= k < before.len() && before[k] == i;
                    assert(path[k] == i);
                }
                if path.contains(i) {
                    let k = choose|k: int| 0 <= k < path.len() && path[k] == i;
                    assert(before[k] == i);
                }
            }
        }
        let dependencies = self.dependency_indexes(index);
        assert(as_ints(dependencies@) == graph[index as int]);
        let ghost mut ranks = rank;
        let mut position: usize = 0;
        while position < dependencies.len()
            invariant
                position <= dependencies@.len(),
                self.wf(),
                index < self.commands().len(),
                graph == graph_of(self.commands()),
                as_ints(dependencies@) == graph[index as int],
                forall|i: int|
                    0 <= i < dependencies@.len() ==> (#[trigger] dependencies@[i])
                        < self.commands().len(),
                path == before.push(index as int),
                path.len() <= graph.len(),
                path.contains(index as int),
                is_path(graph, path),
                as_ints(stack@) == path,
                stack@ == old(stack)@.push(index),
                before == as_ints(old(stack)@),
                states@.len() == graph.len(),
                start == old(states)@,
                start.len() == graph.len(),
                start[index as int] == VisitState::Unvisited,
                unvisited(states@) < unvisited(start),
                ranked(graph, done_states(states@), ranks),
                forall|i: int|
                    0 <= i < states@.len() ==> ((#[trigger] states@[i]) == VisitState::Visiting
                        <==> path.contains(i)),
                forall|i: int|
                    0 <= i < states@.len() && start[i] == VisitState::Visited ==> (
                    #[trigger] states@[i]) == VisitState::Visited,
                forall|i: int|
                    0 <= i < start.len() ==> ((#[trigger] start[i]) == VisitState::Visiting <==>
                        before.contains(i)),
                forall|j: int|
                    0 <= j < position ==> states@[(#[trigger] dependencies@[j]) as int]
                        == VisitState::Visited,
                cycle_from(graph, path, 0) == cycle_from(graph, path, position as int),
            decreases dependencies@.len() - position,
        {
            let next = dependencies[position];
            assert(graph[index as int][position as int] == next);
            assert(path.last() == index);
            match states[next] {
                VisitState::Visiting => {
                    let cycle = self.cycle_names(stack, next);
                    return (Some(cycle), Ghost(ranks));
                },
                VisitState::Visited => {
                    proof {
                        let longer = path.push(next as int);
                        assert(!path.contains(next as int));
                        assert(is_path(graph, longer));
                        assert forall|i: int| 0 <= i < longer.len() implies !done_states(
                            states@,
                        )[#[trigger] longer[i]] || ranks[longer[i]] >= ranks[longer.last()] by {
                            if i < path.len() {
                                assert(longer[i] == path[i]);
                                assert(path.contains(path[i]));
                                assert(states@[path[i]] == VisitState::Visiting);
                            }
                        }
                        lemma_ranked_has_no_cycle(
                            graph,
                            done_states(states@),
                            ranks,
                            longer,
                            0,
                        );
                    }
                },
                VisitState::Unvisited => {
                    let ghost mid = states@;
                    let (found, Ghost(after)) = self.visit_dependencies(
                        next,
                        states,
                        stack,
                        Ghost(ranks),
                    );
                    match found {
                        Some(names) => {
                            assert(!path.contains(next as int));
                            return (Some(names), Ghost(after));
                        },
                        None => {
                            proof {
                                ranks = after;
                                assert(!path.contains(next as int));
                                assert forall|i: int|
                                    0 <= i < states@.len() && start[i]
                                        == VisitState::Visited implies (#[trigger] states@[i])
                                    == VisitState::Visited by {
                                    assert(mid[i] == VisitState::Visited);
                                }
                                assert forall|j: int|
                                    0 <= j < position implies states@[(
                                #[trigger] dependencies@[j]) as int] == VisitState::Visited by {
                                    assert(mid[dependencies@[j] as int] == VisitState::Visited);
                                }
                                assert forall|i: int|
                                    0 <= i < states@.len() implies ((#[trigger] states@[i])
                                    == VisitState::Visiting <==> path.contains(i)) by {
                                    assert(mid[i] == VisitState::Visiting <==> path.contains(i));
                                }
                            }
                        },
                    }
                },
            }
            position += 1;
        }
        let ghost left = states@;
        proof {
            lemma_unvisited_update(states@, index as int, VisitState::Visited);
        }
        let _ = stack.pop();
        states[index] = VisitState::Visited;
        assert(stack@ =~= old(stack)@);
        proof {
            let top = lemma_rank_above(ranks);
            let raised = ranks.update(index as int, top);
            let done = done_states(states@);
            assert(left[index as int] == VisitState::Visiting);
            assert forall|i: int, j: int|
                0 <= i < graph.len() && done[i] && 0 <= j < graph[i].len() implies done[
                #[trigger] graph[i][j]] && raised[graph[i][j]] < raised[i] by {
                if i == index {
                    assert(graph[i][j] == dependencies@[j]);
                    assert(left[dependencies@[j] as int] == VisitState::Visited);
                    assert(graph[i][j] != index);
                } else {
                    assert(done_states(left)[i]);
                    assert(done_states(left)[graph[i][j]] && ranks[graph[i][j]] < ranks[i]);
                    assert(graph[i][j] != index);
                }
            }
            ranks = raised;
            assert forall|i: int| 0 <= i < states@.len() implies ((#[trigger] states@[i])
                == VisitState::Visiting <==> start[i] == VisitState::Visiting) by {
                if i != index {
                    assert(states@[i] == left[i]);
                    assert(left[i] == VisitState::Visiting <==> path.contains(i));
                    assert(start[i] == VisitState::Visiting <==> before.contains(i));
                    if before.contains(i) {
                        let k = choose|k: int| 0 <= k < before.len() && before[k] == i;
                        assert(path[k] == i);
                    }
                    if path.contains(i) {
                        let k = choose|k: int| 0 <= k < path.len() && path[k] == i;
                        assert(before[k] == i);
                    }
                }
            }
        }
        (None, Ghost(ranks))
    }

    /// The names of a cycle.
    fn cycle_names(&self, stack: &Vec<usize>, repeated_index: usize) -> (result: Vec<String>)
        requires
            is_path(graph_of(self.commands()), as_ints(stack@)),
            as_ints(stack@).contains(repeated_index as int),
            repeated_index < self.commands().len(),
        ensures
            text::views(result@) == names_of(
                self.commands(),
                closed(as_ints(stack@), repeated_index as int),
            ),
    {
        let ghost path = as_ints(stack@);
        let ghost first = path.index_of(repeated_index as int);
        proof {
            path.index_of_first_ensures(repeated_index as int);
        }
        let mut at: usize = 0;
        while at < stack.len() && stack[at] != repeated_index
            invariant
                at <= stack@.len(),
                path == as_ints(stack@),
                forall|j: int| 0 <= j < at ==> (#[trigger] stack@[j]) != repeated_index,
            decreases stack@.len() - at,
        {
            at += 1;
        }
        assert(at == first) by {
            assert(path[first] == repeated_index);
            assert(stack@[first] == repeated_index);
            if at < stack@.len() && at != first {
                assert(path[at as int] == path[first]);
            }
        }
        let ghost whole = names_of(self.commands(), path.skip(first));
        let mut names: Vec<String> = Vec::new();
        let mut i: usize = at;
        assert(text::views(names@) =~= whole.take(0));
        while i < stack.len()
            invariant
                at <= i <= stack@.len(),
                at == first,
                path == as_ints(stack@),
                is_path(graph_of(self.commands()), path),
                whole == names_of(self.commands(), path.skip(first)),
                text::views(names@) == whole.take(i - at),
            decreases stack@.len() - i,
        {
            assert(path[i as int] == stack@[i as int]);
            assert(path.skip(first)[i - at] == path[i as int]);
            names.push(self.commands[stack[i]].name.clone());
            assert(whole.take(i - at + 1) =~= whole.take(i - at).push(whole[i - at]));
            i += 1;
        }
        assert(whole.take(i - at) =~= whole);
        names.push(self.commands[repeated_index].name.clone());
        assert(text::views(names@) =~= names_of(
            self.commands(),
            closed(path, repeated_index as int),
        ));
        names
    }
}

/// A number above all of some numbers.
proof fn lemma_rank_above(ranks: Seq<int>) -> (top: int)
    ensures
        top >= 0,
        forall|i: int| 0 <= i < ranks.len() ==> (#[trigger] ranks[i]) < top,
    decreases ranks.len(),
{
    if ranks.len() == 0 {
        0
    } else {
        let front = lemma_rank_above(ranks.drop_last());
        let last = ranks.last();
        let top = if last < front {
            front
        } else {
            last + 1
        };
        assert forall|i: int| 0 <= i < ranks.len() implies (#[trigger] ranks[i]) < top by {
            if i < ranks.len() - 1 {
                assert(ranks.drop_last()[i] == ranks[i]);
            }
        }
        top
    }
}

// ---------------------------------------------------------------------------
// Laws
// ---------------------------------------------------------------------------

/// Whether commands wait for one another in a circle.
pub open spec fn is_cycle(graph: Seq<Seq<int>>, cycle: Seq<int>) -> bool {
    &&& cycle.len() >= 2
    &&& cycle[0] == cycle.last()
    &&& forall|i: int| 0 <= i < cycle.len() ==> 0 <= #[trigger] cycle[i] < graph.len()
    &&& forall|i: int|
        0 <= i < cycle.len() - 1 ==> graph[#[trigger] cycle[i]].contains(cycle[i + 1])
}

/// Whether each node of a path leads to the next.
pub open spec fn is_walk(graph: Seq<Seq<int>>, path: Seq<int>) -> bool {
    forall|i: int| 0 <= i < path.len() - 1 ==> graph[#[trigger] path[i]].contains(path[i + 1])
}

proof fn lemma_found_is_cycle(graph: Seq<Seq<int>>, path: Seq<int>, position: int)
    requires
        is_graph(graph),
        is_path(graph, path),
        is_walk(graph, path),
        path.len() > 0,
        position >= 0,
    ensures
        match cycle_from(graph, path, position) {
            Some(cycle) => is_cycle(graph, cycle),
            None => true,
        },
    decreases graph.len() + 1 - path.len(), graph[path.last()].len() - position,
{
    if path.len() <= graph.len() && position < graph[path.last()].len() {
        let next = graph[path.last()][position];
        assert(graph[path.last()].contains(next));
        if path.contains(next) {
            path.index_of_first_ensures(next);
            let first = path.index_of(next);
            let cycle = closed(path, next);
            assert(path[first] == next);
            assert(cycle[0] == next);
            assert forall|i: int| 0 <= i < cycle.len() implies 0 <= #[trigger] cycle[i]
                < graph.len() by {
                if i < path.len() - first {
                    assert(cycle[i] == path[first + i]);
                }
            }
            assert forall|i: int| 0 <= i < cycle.len() - 1 implies graph[#[trigger] cycle[i]].contains(
                cycle[i + 1],
            ) by {
                assert(cycle[i] == path[first + i]);
                if i + 1 < path.len() - first {
                    assert(cycle[i + 1] == path[first + i + 1]);
                } else {
                    assert(cycle[i + 1] == next);
                    assert(path[first + i] == path.last());
                }
            }
        } else {
            let longer = path.push(next);
            assert(is_path(graph, longer));
            assert forall|i: int| 0 <= i < longer.len() - 1 implies graph[
                #[trigger] longer[i]].contains(longer[i + 1]) by {
                assert(longer[i] == path[i]);
                if i + 1 < path.len() {
                    assert(longer[i + 1] == path[i + 1]);
                }
            }
            lemma_found_is_cycle(graph, longer, 0);
        }
        lemma_found_is_cycle(graph, path, position + 1);
    }
}

proof fn lemma_first_is_cycle(graph: Seq<Seq<int>>, index: int)
    requires
        is_graph(graph),
        index >= 0,
    ensures
        match first_cycle(graph, index) {
            Some(cycle) => is_cycle(graph, cycle),
            None => true,
        },
    decreases graph.len() - index,
{
    if index < graph.len() {
        lemma_found_is_cycle(graph, seq![index], 0);
        lemma_first_is_cycle(graph, index + 1);
    }
}

/// Where nothing is found from the end of a path, each dependency leads on, to
/// a path from whose end nothing is found either.
proof fn lemma_nothing_found(graph: Seq<Seq<int>>, path: Seq<int>, position: int, at: int)
    requires
        is_graph(graph),
        is_path(graph, path),
        path.len() > 0,
        0 <= position <= at < graph[path.last()].len(),
        cycle_from(graph, path, position) is None,
    ensures
        !path.contains(graph[path.last()][at]),
        cycle_from(graph, path.push(graph[path.last()][at]), 0) is None,
        is_path(graph, path.push(graph[path.last()][at])),
    decreases at - position,
{
    lemma_path_fits(graph, path);
    if position < at {
        lemma_nothing_found(graph, path, position + 1, at);
    }
}

proof fn lemma_nothing_from(graph: Seq<Seq<int>>, from: int, index: int)
    requires
        0 <= from <= index < graph.len(),
        first_cycle(graph, from) is None,
    ensures
        cycle_from(graph, seq![index], 0) is None,
    decreases index - from,
{
    if from < index {
        lemma_nothing_from(graph, from + 1, index);
    }
}

/// A path from which nothing is found does not lead back to itself along a
/// cycle.
proof fn lemma_no_return(graph: Seq<Seq<int>>, path: Seq<int>, cycle: Seq<int>, at: int)
    requires
        is_graph(graph),
        is_path(graph, path),
        path.len() > 0,
        cycle_from(graph, path, 0) is None,
        0 <= at < cycle.len() - 1,
        path.last() == cycle[at],
        path.contains(cycle.last()),
    ensures
        !is_cycle(graph, cycle),
    decreases cycle.len() - at,
{
    if is_cycle(graph, cycle) {
        let next = cycle[at + 1];
        assert(graph[cycle[at]].contains(next));
        let k = choose|k: int| 0 <= k < graph[cycle[at]].len() && graph[cycle[at]][k] == next;
        lemma_nothing_found(graph, path, 0, k);
        let longer = path.push(next);
        let i = choose|i: int| 0 <= i < path.len() && path[i] == cycle.last();
        assert(longer[i] == cycle.last());
        if at + 1 < cycle.len() - 1 {
            lemma_no_return(graph, longer, cycle, at + 1);
        }
    }
}

/// The names told of a cycle are those of commands that wait for one another in
/// a circle.
pub proof fn law_told_cycle_is_one(commands: Seq<StartView>)
    requires
        unknown_from(commands, 0) == commands.len(),
    ensures
        match plan_error(commands) {
            Some(PlanErrorView::DependencyCycle { cycle }) => exists|indexes: Seq<int>|
                #![trigger names_of(commands, indexes)]
                is_cycle(graph_of(commands), indexes) && cycle == names_of(commands, indexes),
            Some(_) => false,
            None => true,
        },
{
    lemma_known_is_graph(commands, 0);
    lemma_first_is_cycle(graph_of(commands), 0);
    match first_cycle(graph_of(commands), 0) {
        Some(cycle) => {
            assert(is_cycle(graph_of(commands), cycle));
            assert(names_of(commands, cycle) == names_of(commands, cycle));
        },
        None => {},
    }
}

/// In a plan no commands wait for one another in a circle.
pub proof fn law_plan_has_no_cycle(commands: Seq<StartView>, cycle: Seq<int>)
    requires
        plan_error(commands) is None,
    ensures
        !is_cycle(graph_of(commands), cycle),
{
    let graph = graph_of(commands);
    lemma_unknown_bounds(commands, 0);
    lemma_known_is_graph(commands, 0);
    if is_cycle(graph, cycle) {
        let path = seq![cycle[0]];
        lemma_nothing_from(graph, 0, cycle[0]);
        assert(path[0] == cycle.last());
        lemma_no_return(graph, path, cycle, 0);
    }
}

/// While some commands of a plan have not been started, one of them waits only
/// for commands that have been.
pub proof fn law_some_command_can_start(commands: Seq<StartView>, started: Seq<bool>) -> (next: int)
    requires
        plan_error(commands) is None,
        started.len() == commands.len(),
        exists|i: int| 0 <= i < started.len() && !started[i],
    ensures
        0 <= next < commands.len(),
        !started[next],
        forall|j: int|
            0 <= j < waits(commands, next).len() ==> started[#[trigger] waits(commands, next)[j]],
{
    let graph = graph_of(commands);
    lemma_unknown_bounds(commands, 0);
    lemma_known_is_graph(commands, 0);
    let i = choose|i: int| 0 <= i < started.len() && !started[i];
    lemma_nothing_from(graph, 0, i);
    let next = lemma_next_to_start(graph, started, seq![i]);
    assert forall|j: int| 0 <= j < waits(commands, next).len() implies started[
        #[trigger] waits(commands, next)[j]] by {
        assert(graph[next][j] == waits(commands, next)[j]);
    }
    next
}

proof fn lemma_next_to_start(graph: Seq<Seq<int>>, started: Seq<bool>, path: Seq<int>) -> (next: int)
    requires
        is_graph(graph),
        started.len() == graph.len(),
        is_path(graph, path),
        path.len() > 0,
        !started[path.last()],
        cycle_from(graph, path, 0) is None,
    ensures
        0 <= next < graph.len(),
        !started[next],
        forall|j: int| 0 <= j < graph[next].len() ==> started[#[trigger] graph[next][j]],
    decreases graph.len() + 1 - path.len(),
{
    lemma_path_fits(graph, path);
    let last = path.last();
    assert(path[path.len() - 1] == last);
    if forall|j: int| 0 <= j < graph[last].len() ==> started[#[trigger] graph[last][j]] {
        last
    } else {
        let j = choose|j: int| 0 <= j < graph[last].len() && !started[#[trigger] graph[last][j]];
        lemma_nothing_found(graph, path, 0, j);
        lemma_next_to_start(graph, started, path.push(graph[last][j]))
    }
}

proof fn lemma_unknown_bounds(commands: Seq<StartView>, index: int)
    requires
        0 <= index <= commands.len(),
    ensures
        index <= unknown_from(commands, index) <= commands.len(),
    decreases commands.len() - index,
{
    if index < commands.len() {
        lemma_unknown_bounds(commands, index + 1);
    }
}

proof fn lemma_named(commands: Seq<StartView>, name: Seq<char>, count: int)
    requires
        0 <= count <= commands.len(),
    ensures
        0 <= named_within(commands, name, count) <= commands.len(),
    decreases count,
{
    if count > 0 {
        lemma_named(commands, name, count - 1);
    }
}

proof fn lemma_known(commands: Seq<StartView>, wait_for: Seq<Seq<char>>, i: int)
    requires
        unknown_in(commands, wait_for) >= wait_for.len(),
        0 <= i < wait_for.len(),
    ensures
        0 <= named(commands, wait_for[i]) < commands.len(),
    decreases wait_for.len(),
{
    lemma_named(commands, wait_for[0], commands.len() as int);
    if i > 0 {
        lemma_known(commands, wait_for.drop_first(), i - 1);
        assert(wait_for.drop_first()[i - 1] == wait_for[i]);
    }
}

/// Where every dependency is a command, the graph leads only to commands.
proof fn lemma_known_is_graph(commands: Seq<StartView>, index: int)
    requires
        0 <= index <= commands.len(),
        unknown_from(commands, index) == commands.len(),
    ensures
        forall|i: int, j: int|
            index <= i < commands.len() && 0 <= j < graph_of(commands)[i].len() ==> 0
                <= #[trigger] graph_of(commands)[i][j] < commands.len(),
        index == 0 ==> is_graph(graph_of(commands)),
    decreases commands.len() - index,
{
    if index < commands.len() {
        lemma_known_is_graph(commands, index + 1);
        let graph = graph_of(commands);
        assert forall|i: int, j: int|
            index <= i < commands.len() && 0 <= j < graph[i].len() implies 0
            <= #[trigger] graph[i][j] < commands.len() by {
            if i == index {
                lemma_known(commands, commands[index].wait_for, j);
            }
        }
    }
}

} // verus!
