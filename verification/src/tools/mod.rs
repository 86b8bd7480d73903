pub mod mcp;
pub mod web_search;

use vstd::prelude::*;

verus! {

/// The calculator tool (four operations on two numbers).
pub struct CalculatorTool;

/// The web-search tool (Tavily).
pub struct WebSearchTool;

impl CalculatorTool {
    /// The tool's name.
    pub fn name(&self) -> (r: &'static str)
        ensures
            r@ == "Calculator"@,
    {
        "Calculator"
    }

    /// The tool's description.
    pub fn description(&self) -> (r: &'static str)
        ensures
            r@ == "Calculator"@,
    {
        "Calculator"
    }
}

impl WebSearchTool {
    /// The tool's name.
    pub fn name(&self) -> (r: &'static str)
        ensures
            r@ == "WebSearch"@,
    {
        "WebSearch"
    }

    /// The tool's description.
    pub fn description(&self) -> (r: &'static str)
        ensures
            r@ == "Web search"@,
    {
        "Web search"
    }
}

} // verus!
