//! The tool registry: what a run is allowed to do.
//!
//! Conditional capabilities are conditional registrations and not branches in
//! some dispatch.

use crate::agent_runtime::citations::CitationLedger;
use crate::providers::types;
use crate::providers::types::ToolDefinition;
use crate::providers::types::ToolDefinitionView;
use crate::text;
use vstd::prelude::*;

verus! {

/// The outcome of a single tool execution. `failed` is kept apart from the
/// output: the text of an error still has to reach the model, while the
/// recorded status says what happened.
#[derive(Debug, PartialEq)]
pub struct ToolResult {
    pub output: String,
    /// How many things the tool found.
    pub results_count: i32,
    pub failed: bool,
}

/// The outcome of a tool execution.
pub struct ToolResultView {
    pub output: Seq<char>,
    pub results_count: i32,
    pub failed: bool,
}

impl View for ToolResult {
    type V = ToolResultView;

    open spec fn view(&self) -> ToolResultView {
        ToolResultView {
            output: self.output@,
            results_count: self.results_count,
            failed: self.failed,
        }
    }
}

impl ToolResultView {
    /// A tool that found something.
    pub open spec fn found(output: Seq<char>, results_count: i32) -> ToolResultView {
        ToolResultView { output, results_count, failed: false }
    }

    /// A tool that failed with `error`.
    pub open spec fn failure(error: Seq<char>) -> ToolResultView {
        ToolResultView { output: "Error: "@ + error, results_count: 0, failed: true }
    }
}

impl ToolResult {
    pub fn ok(output: String, results_count: i32) -> (result: ToolResult)
        ensures
            result@ == ToolResultView::found(output@, results_count),
            result.output@ == output@,
            result.results_count == results_count,
            !result.failed,
    {
        ToolResult { output, results_count, failed: false }
    }

    pub fn failed(error: &str) -> (result: ToolResult)
        ensures
            result@ == ToolResultView::failure(error@),
            result.output@ == "Error: "@ + error@,
            result.results_count == 0,
            result.failed,
    {
        ToolResult {
            output: String::from_str("Error: ").concat(error),
            results_count: 0,
            failed: true,
        }
    }
}

/// What a tool may reach into during a run. Everything else that a tool needs
/// it has from its construction.
pub struct ToolContext<'a> {
    /// Evidence registered here becomes citable, by the number that comes
    /// back.
    pub citations: &'a mut CitationLedger,
}

/// The tools that one run may call, in the order in which they were
/// registered, which is the order in which the model sees them. A tool is
/// reached through a handle.
pub struct ToolRegistry<T> {
    definitions: Vec<ToolDefinition>,
    handles: Vec<T>,
}

/// The place of the tool `name`, or the number of tools where there is none of
/// that name.
pub open spec fn place_of(tools: Seq<ToolDefinitionView>, name: Seq<char>) -> int
    decreases tools.len(),
{
    if tools.len() == 0 || tools[0].name == name {
        0
    } else {
        1 + place_of(tools.skip(1), name)
    }
}

proof fn lemma_place_of(tools: Seq<ToolDefinitionView>, name: Seq<char>, at: int)
    requires
        0 <= at <= tools.len(),
        forall|i: int| 0 <= i < at ==> (#[trigger] tools[i]).name != name,
        at < tools.len() ==> tools[at].name == name,
    ensures
        place_of(tools, name) == at,
    decreases tools.len(),
{
    if at > 0 {
        lemma_place_of(tools.skip(1), name, at - 1);
    }
}

/// What `place_of` promises.
pub proof fn lemma_place_bounds(tools: Seq<ToolDefinitionView>, name: Seq<char>)
    ensures
        0 <= place_of(tools, name) <= tools.len(),
        place_of(tools, name) < tools.len() ==> tools[place_of(tools, name)].name == name,
        forall|i: int| 0 <= i < place_of(tools, name) ==> (#[trigger] tools[i]).name != name,
    decreases tools.len(),
{
    if tools.len() > 0 && tools[0].name != name {
        let rest = tools.skip(1);
        lemma_place_bounds(rest, name);
        assert forall|i: int| 0 <= i < place_of(tools, name) implies (#[trigger] tools[i]).name
            != name by {
            if i > 0 {
                assert(rest[i - 1] == tools[i]);
            }
        }
    }
}

/// A list of tools once `tool` has been registered: in the place of the tool
/// of its name, or at the end.
pub open spec fn with_tool<A>(
    tools: Seq<ToolDefinitionView>,
    list: Seq<A>,
    name: Seq<char>,
    item: A,
) -> Seq<A> {
    let place = place_of(tools, name);
    if place < tools.len() {
        list.update(place, item)
    } else {
        list.push(item)
    }
}

/// Whether no two tools have the same name.
pub open spec fn distinct(tools: Seq<ToolDefinitionView>) -> bool {
    forall|i: int, j: int|
        0 <= i < j < tools.len() ==> (#[trigger] tools[i]).name != (#[trigger] tools[j]).name
}

impl<T> ToolRegistry<T> {
    /// The tools as the model sees them.
    pub closed spec fn tools(&self) -> Seq<ToolDefinitionView> {
        types::tools_view(self.definitions@)
    }

    /// The handles of the tools, in the same order.
    pub closed spec fn handles(&self) -> Seq<T> {
        self.handles@
    }

    /// Each tool has a handle, and no two have the same name.
    pub open spec fn well_formed(&self) -> bool {
        self.tools().len() == self.handles().len() && distinct(self.tools())
    }

    pub fn new() -> (registry: ToolRegistry<T>)
        ensures
            registry.well_formed(),
            registry.tools() == Seq::<ToolDefinitionView>::empty(),
            registry.handles() == Seq::<T>::empty(),
    {
        let registry = ToolRegistry { definitions: Vec::new(), handles: Vec::new() };
        assert(registry.tools() =~= Seq::<ToolDefinitionView>::empty());
        registry
    }

    fn position(&self, name: &str) -> (at: usize)
        ensures
            at == place_of(self.tools(), name@),
            at <= self.definitions@.len(),
    {
        let mut at: usize = 0;
        while at < self.definitions.len()
            invariant
                at <= self.definitions.len(),
                forall|i: int| 0 <= i < at ==> (#[trigger] self.tools()[i]).name != name@,
            decreases self.definitions.len() - at,
        {
            assert(self.tools()[at as int] == self.definitions@[at as int]@);
            if text::same_text(self.definitions[at].name.as_str(), name) {
                proof {
                    lemma_place_of(self.tools(), name@, at as int);
                }
                return at;
            }
            at = at + 1;
        }
        proof {
            lemma_place_of(self.tools(), name@, at as int);
        }
        at
    }

    /// Adds a tool. An earlier one of the same name is replaced in its place,
    /// so that a caller can override a tool without reordering.
    pub fn register(&mut self, tool: T, definition: ToolDefinition)
        requires
            old(self).well_formed(),
        ensures
            final(self).well_formed(),
            final(self).tools() == with_tool(
                old(self).tools(),
                old(self).tools(),
                definition@.name,
                definition@,
            ),
            final(self).handles() == with_tool(
                old(self).tools(),
                old(self).handles(),
                definition@.name,
                tool,
            ),
    {
        let ghost before = self.tools();
        let ghost shown = definition@;
        let at = self.position(definition.name.as_str());
        proof {
            lemma_place_bounds(before, shown.name);
        }
        if at < self.definitions.len() {
            self.definitions.set(at, definition);
            self.handles.set(at, tool);
            assert(self.tools() =~= before.update(at as int, shown));
        } else {
            self.definitions.push(definition);
            self.handles.push(tool);
            assert(self.tools() =~= before.push(shown));
        }
        proof {
            let after = self.tools();
            assert forall|i: int, j: int| 0 <= i < j < after.len() implies (
            #[trigger] after[i]).name != (#[trigger] after[j]).name by {
                if i < before.len() && i != at {
                    assert(after[i] == before[i]);
                }
                if j < before.len() && j != at {
                    assert(after[j] == before[j]);
                }
            }
        }
    }

    /// The registry with one more tool.
    pub fn with(self, tool: T, definition: ToolDefinition) -> (registry: ToolRegistry<T>)
        requires
            self.well_formed(),
        ensures
            registry.well_formed(),
            registry.tools() == with_tool(
                self.tools(),
                self.tools(),
                definition@.name,
                definition@,
            ),
            registry.handles() == with_tool(self.tools(), self.handles(), definition@.name, tool),
    {
        let mut registry = self;
        registry.register(tool, definition);
        registry
    }

    /// The tools as the model sees them.
    pub fn definitions(&self) -> (definitions: &Vec<ToolDefinition>)
        ensures
            types::tools_view(definitions@) == self.tools(),
    {
        &self.definitions
    }

    /// The handle of the tool `name`.
    pub fn get(&self, name: &str) -> (handle: Option<&T>)
        requires
            self.well_formed(),
        ensures
            match handle {
                Some(handle) => place_of(self.tools(), name@) < self.tools().len() && *handle
                    == self.handles()[place_of(self.tools(), name@)],
                None => place_of(self.tools(), name@) == self.tools().len(),
            },
    {
        let at = self.position(name);
        proof {
            lemma_place_bounds(self.tools(), name@);
        }
        if at < self.handles.len() {
            Some(&self.handles[at])
        } else {
            None
        }
    }
}

/// Registering a tool keeps every other tool where it stands, and what was
/// registered last under a name is what that name reaches.
pub proof fn lemma_last_registration_wins<A>(
    tools: Seq<ToolDefinitionView>,
    handles: Seq<A>,
    definition: ToolDefinitionView,
    handle: A,
)
    requires
        tools.len() == handles.len(),
        distinct(tools),
    ensures
        ({
            let after = with_tool(tools, tools, definition.name, definition);
            let reached = with_tool(tools, handles, definition.name, handle);
            &&& distinct(after)
            &&& after.len() == reached.len()
            &&& place_of(after, definition.name) < after.len()
            &&& after[place_of(after, definition.name)] == definition
            &&& reached[place_of(after, definition.name)] == handle
            &&& forall|i: int|
                0 <= i < tools.len() && (#[trigger] tools[i]).name != definition.name
                    ==> after[i] == tools[i] && reached[i] == handles[i]
        }),
{
    lemma_place_bounds(tools, definition.name);
    let place = place_of(tools, definition.name);
    let after = with_tool(tools, tools, definition.name, definition);
    assert forall|i: int| 0 <= i < place implies (#[trigger] after[i]).name
        != definition.name by {
        assert(after[i] == tools[i]);
    }
    lemma_place_of(after, definition.name, place);
    assert forall|i: int, j: int| 0 <= i < j < after.len() implies (#[trigger] after[i]).name != (
    #[trigger] after[j]).name by {
        if i < tools.len() && i != place {
            assert(after[i] == tools[i]);
        }
        if j < tools.len() && j != place {
            assert(after[j] == tools[j]);
        }
    }
}

/// A tool of a new name comes last, and one of a known name takes the place of
/// the tool that had it; the order of the others stays.
pub proof fn lemma_registering_keeps_the_order<A>(
    tools: Seq<ToolDefinitionView>,
    handles: Seq<A>,
    definition: ToolDefinitionView,
    handle: A,
    known: int,
)
    requires
        tools.len() == handles.len(),
        distinct(tools),
    ensures
        ({
            let after = with_tool(tools, tools, definition.name, definition);
            let reached = with_tool(tools, handles, definition.name, handle);
            &&& 0 <= known < tools.len() && tools[known].name == definition.name ==> {
                &&& after.len() == tools.len()
                &&& after[known] == definition
                &&& reached[known] == handle
            }
            &&& (forall|i: int| 0 <= i < tools.len() ==> (#[trigger] tools[i]).name
                != definition.name) ==> {
                &&& after == tools.push(definition)
                &&& reached == handles.push(handle)
            }
        }),
{
    lemma_place_bounds(tools, definition.name);
    let place = place_of(tools, definition.name);
    if 0 <= known < tools.len() && tools[known].name == definition.name && place != known {
        assert(tools[place].name != tools[known].name);
    }
}

/// What a tool result says: what was found, with how many results, or an error
/// that is marked as one and counts for none.
pub proof fn lemma_a_failure_is_told_apart(output: Seq<char>, count: i32, error: Seq<char>)
    ensures
        ToolResultView::found(output, count).output == output,
        ToolResultView::found(output, count).results_count == count,
        !ToolResultView::found(output, count).failed,
        ToolResultView::failure(error).output == "Error: "@ + error,
        ToolResultView::failure(error).results_count == 0,
        ToolResultView::failure(error).failed,
{
}

} // verus!
