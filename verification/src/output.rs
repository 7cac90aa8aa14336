use vstd::prelude::*;

verus! {

/// One search hit, as the presentation layer renders it.
pub struct SearchResult {
    pub appid: u32,
    pub name: String,
    pub prefix_path: Option<String>,
}

/// One runtime-state lookup, as the presentation layer renders it.
pub struct PrefixResult {
    pub appid: u32,
    pub prefix_path: Option<String>,
}

/// How command output is rendered.
pub enum OutputFormat {
    Normal,
    Plain,
    Json,
    Delimited(String),
}

/// Picks the output format from the flags, machine formats taking
/// precedence in the order: structured, plain, delimited, decorated.
pub fn determine_format(json: bool, plain: bool, delimiter: &Option<String>) -> (r: OutputFormat)
    ensures
        json ==> r is Json,
        !json && plain ==> r is Plain,
        !json && !plain && delimiter is Some ==> (r matches OutputFormat::Delimited(d) && d@
            == delimiter->0@),
        !json && !plain && delimiter is None ==> r is Normal,
{
    if json {
        OutputFormat::Json
    } else if plain {
        OutputFormat::Plain
    } else {
        match delimiter {
            Some(d) => OutputFormat::Delimited(d.clone()),
            None => OutputFormat::Normal,
        }
    }
}

} // verus!
