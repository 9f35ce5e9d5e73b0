//! The command line as values: what each command is asked to do.
use vstd::prelude::*;
use vstd::string::*;
use crate::graph::types::{GraphFormat, GraphQuery};
use crate::runtime::profiles::ContextCommandInput;
use crate::runtime::source::SourceRequest;

verus! {

/// A parsed command line.
#[derive(Debug, Clone, PartialEq, Eq)]
pub struct Cli {
    pub command: Commands,
}

/// The commands.
#[derive(Debug, Clone, PartialEq, Eq)]
pub enum Commands {
    /// Count lines of code per language.
    Loc(LocArgs),
    /// Build a context pack.
    Context(ContextArgs),
    /// Serve the tools over the Model Context Protocol.
    Mcp,
    /// Build a dependency graph.
    Graph(GraphArgs),
}

/// The arguments of `loc`.
#[derive(Debug, Clone, PartialEq, Eq)]
pub struct LocArgs {
    pub path: Option<String>,
    pub url: Option<String>,
    pub git_ref: Option<String>,
    pub ignore: Vec<String>,
}

/// How a context pack is compressed.
#[derive(Debug, Clone, Copy, PartialEq, Eq)]
pub enum ContextCompress {
    Signatures,
    Skeleton,
}

/// The format of a context pack.
#[derive(Debug, Clone, Copy, PartialEq, Eq)]
pub enum ContextFormat {
    Markdown,
    Json,
}

/// The arguments of `context`.
#[derive(Debug, Clone, PartialEq, Eq)]
pub struct ContextArgs {
    pub path: Option<String>,
    pub url: Option<String>,
    pub git_ref: Option<String>,
    pub config: Option<String>,
    pub no_config: bool,
    pub profile: Option<String>,
    pub list_profiles: bool,
    pub ignore: Vec<String>,
    pub focus: Vec<String>,
    pub diff: Option<String>,
    pub budget: Option<u64>,
    pub compress: Option<ContextCompress>,
    pub format: Option<ContextFormat>,
    pub output: Option<String>,
}

/// The output formats of `graph`.
#[derive(Debug, Clone, Copy, PartialEq, Eq)]
pub enum GraphOutputFormat {
    Json,
    Markdown,
    Xml,
    Dot,
}

/// The arguments of `graph`.
#[derive(Debug, Clone, PartialEq, Eq)]
pub struct GraphArgs {
    pub path: Option<String>,
    pub url: Option<String>,
    pub git_ref: Option<String>,
    pub ignore: Vec<String>,
    pub focus: Vec<String>,
    pub depth: Option<u32>,
    pub what_depends_on: Option<String>,
    pub format: GraphOutputFormat,
    pub output: Option<String>,
}

/// The name of a compression mode.
pub open spec fn compress_name(c: ContextCompress) -> Seq<char> {
    match c {
        ContextCompress::Signatures => "signatures"@,
        ContextCompress::Skeleton => "skeleton"@,
    }
}

/// The name of a compression mode.
pub fn context_compress_name(compress: ContextCompress) -> (r: String)
    ensures
        r@ == compress_name(compress),
{
    match compress {
        ContextCompress::Signatures => "signatures".to_owned(),
        ContextCompress::Skeleton => "skeleton".to_owned(),
    }
}

/// The name of a context format.
pub open spec fn format_name(f: ContextFormat) -> Seq<char> {
    match f {
        ContextFormat::Markdown => "markdown"@,
        ContextFormat::Json => "json"@,
    }
}

/// The name of a context format.
pub fn context_format_name(format: ContextFormat) -> (r: String)
    ensures
        r@ == format_name(format),
{
    match format {
        ContextFormat::Markdown => "markdown".to_owned(),
        ContextFormat::Json => "json".to_owned(),
    }
}

/// What the `context` command asks of the library: the same values, with
/// the compression mode and the format by name.
pub fn context_command_input(arguments: ContextArgs) -> (r: ContextCommandInput)
    ensures
        r.source == (SourceRequest { path: arguments.path, url: arguments.url, git_ref: arguments.git_ref }),
        r.config == arguments.config,
        r.no_config == arguments.no_config,
        r.profile == arguments.profile,
        r.list_profiles == arguments.list_profiles,
        r.ignore == arguments.ignore,
        r.focus == arguments.focus,
        r.diff == arguments.diff,
        r.budget == arguments.budget,
        match arguments.compress {
            Some(c) => r.compress matches Some(n) && n@ == compress_name(c),
            None => r.compress is None,
        },
        match arguments.format {
            Some(f) => r.format matches Some(n) && n@ == format_name(f),
            None => r.format is None,
        },
        r.output == arguments.output,
{
    let compress = match arguments.compress {
        Some(c) => Some(context_compress_name(c)),
        None => None,
    };
    let format = match arguments.format {
        Some(f) => Some(context_format_name(f)),
        None => None,
    };
    ContextCommandInput {
        source: SourceRequest { path: arguments.path, url: arguments.url, git_ref: arguments.git_ref },
        config: arguments.config,
        no_config: arguments.no_config,
        profile: arguments.profile,
        list_profiles: arguments.list_profiles,
        ignore: arguments.ignore,
        focus: arguments.focus,
        diff: arguments.diff,
        budget: arguments.budget,
        compress,
        format,
        output: arguments.output,
    }
}

/// The graph format an output format names.
pub fn graph_format(format: GraphOutputFormat) -> (r: GraphFormat)
    ensures
        r == match format {
            GraphOutputFormat::Json => GraphFormat::Json,
            GraphOutputFormat::Markdown => GraphFormat::Markdown,
            GraphOutputFormat::Xml => GraphFormat::Xml,
            GraphOutputFormat::Dot => GraphFormat::Dot,
        },
{
    match format {
        GraphOutputFormat::Json => GraphFormat::Json,
        GraphOutputFormat::Markdown => GraphFormat::Markdown,
        GraphOutputFormat::Xml => GraphFormat::Xml,
        GraphOutputFormat::Dot => GraphFormat::Dot,
    }
}

/// The query of `--what-depends-on`, if given.
pub fn graph_query(what_depends_on: Option<String>) -> (r: Option<GraphQuery>)
    ensures
        match what_depends_on {
            Some(p) => r == Some(GraphQuery::DependsOn(p)),
            None => r is None,
        },
{
    match what_depends_on {
        Some(p) => Some(GraphQuery::DependsOn(p)),
        None => None,
    }
}

} // verus!
