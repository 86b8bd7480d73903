use vstd::prelude::*;

verus! {

/// The arguments of a web search.
pub struct WebSearchArgs {
    pub query: String,
    pub max_result: u8,
    pub topic: String,
    pub time_range: Option<String>,
}

/// How many results a search asks for when the arguments do not say.
pub fn default_max_results() -> (r: u8)
    ensures
        r == 2,
{
    2
}

/// The topic of a search when the arguments do not say.
pub fn default_topic() -> (r: String)
    ensures
        r@ == "general"@,
{
    crate::text::owned("general")
}

/// One search result.
pub struct SearchResults {
    pub title: String,
    pub url: String,
    pub content: String,
}

/// What the search service answers.
pub struct TavilyResponse {
    pub results: Vec<SearchResults>,
    pub answer: Option<String>,
}

/// What the tool hands back.
pub struct WebSearchOutput {
    pub answer: Option<String>,
    pub result: Vec<SearchResults>,
}

impl TavilyResponse {
    /// The tool's output for this answer: the service's answer and results.
    pub fn into_output(self) -> (o: WebSearchOutput)
        ensures
            o.answer == self.answer,
            o.result == self.results,
    {
        WebSearchOutput { answer: self.answer, result: self.results }
    }
}

} // verus!
