//! The built-in plugins by name.

use vstd::prelude::*;

use crate::analyze;
use crate::config::ScoreConfig;
use crate::context::{
    AnalysisContext, AnalysisModel, AnalyzerPlugin, ContextModel, PluginAnalysis,
};
use crate::plugins::go;
use crate::plugins::go::GoPlugin;
use crate::plugins::typescript;
use crate::plugins::typescript::TypeScriptPlugin;
use crate::report::{AnalyzeError, ErrorModel, ScoreReport};
use crate::text;

verus! {

/// A built-in plugin.
#[derive(Debug)]
pub enum BuiltinPlugin {
    Go(GoPlugin),
    TypeScript(TypeScriptPlugin),
}

/// Whether a name is the one of a built-in plugin.
pub open spec fn is_plugin_name(name: Seq<char>) -> bool {
    name == "go"@ || name == "ts"@
}

/// The first of the names that is not the one of a built-in plugin.
pub open spec fn first_unknown(names: Seq<Seq<char>>) -> Option<Seq<char>>
    decreases names.len(),
{
    if names.len() == 0 {
        None
    } else if is_plugin_name(names[0]) {
        first_unknown(names.skip(1))
    } else {
        Some(names[0])
    }
}

impl BuiltinPlugin {
    /// The name of the plugin.
    pub open spec fn name(self) -> Seq<char> {
        match self {
            BuiltinPlugin::Go(_) => "go"@,
            BuiltinPlugin::TypeScript(_) => "ts"@,
        }
    }

    /// Whether the plugin has no observation.
    pub open spec fn is_blank(self) -> bool {
        match self {
            BuiltinPlugin::Go(plugin) => plugin.observation.is_blank(),
            BuiltinPlugin::TypeScript(plugin) => plugin.observation.is_blank(),
        }
    }

    /// What the plugin says of a context.
    pub open spec fn analysis(self, ctx: ContextModel) -> AnalysisModel {
        match self {
            BuiltinPlugin::Go(plugin) => go::go_analysis(ctx, plugin.observation),
            BuiltinPlugin::TypeScript(plugin) => typescript::typescript_analysis(
                ctx,
                plugin.observation,
            ),
        }
    }
}

impl AnalyzerPlugin for BuiltinPlugin {
    fn id(&self) -> (r: &'static str)
        ensures
            r@ == self.name(),
    {
        match self {
            BuiltinPlugin::Go(plugin) => plugin.id(),
            BuiltinPlugin::TypeScript(plugin) => plugin.id(),
        }
    }

    fn analyze(&self, ctx: &AnalysisContext) -> (r: PluginAnalysis)
        ensures
            r@ == self.analysis(ctx@),
    {
        match self {
            BuiltinPlugin::Go(plugin) => plugin.analyze(ctx),
            BuiltinPlugin::TypeScript(plugin) => plugin.analyze(ctx),
        }
    }
}

/// The plugins of the names, in their order and without any observation, or the error on the first
/// name that is unknown.
pub fn resolve_builtin_plugins(names: &[String]) -> (r: Result<Vec<BuiltinPlugin>, AnalyzeError>)
    ensures
        match first_unknown(text::views(names@)) {
            Some(name) => r is Err && r->Err_0@ == ErrorModel::Command(
                "unknown plugin: "@ + name,
            ),
            None => {
                &&& r is Ok
                &&& r->Ok_0@.len() == names@.len()
                &&& forall|i: int|
                    0 <= i < names@.len() ==> (#[trigger] r->Ok_0@[i]).name() == names@[i]@
                        && r->Ok_0@[i].is_blank()
            },
        },
{
    let ghost all = text::views(names@);
    let mut plugins: Vec<BuiltinPlugin> = Vec::new();
    let mut i: usize = 0;
    assert(all.skip(0) =~= all);
    while i < names.len()
        invariant
            i <= names@.len(),
            all == text::views(names@),
            first_unknown(all.skip(i as int)) == first_unknown(all),
            plugins@.len() == i,
            forall|k: int|
                0 <= k < i ==> (#[trigger] plugins@[k]).name() == names@[k]@
                    && plugins@[k].is_blank(),
        decreases names@.len() - i,
    {
        let name = names[i].as_str();
        proof {
            assert(all.skip(i as int)[0] == name@);
            assert(all.skip(i as int).skip(1) =~= all.skip(i + 1));
        }
        if text::same(name, "go") {
            plugins.push(BuiltinPlugin::Go(GoPlugin::new()));
        } else if text::same(name, "ts") {
            plugins.push(BuiltinPlugin::TypeScript(TypeScriptPlugin::new()));
        } else {
            return Err(AnalyzeError::Command("unknown plugin: ".to_string().concat(name)));
        }
        i = i + 1;
    }
    Ok(plugins)
}

/// What the plugins say of a context, in their order.
pub open spec fn analyses_of(plugins: Seq<BuiltinPlugin>, ctx: ContextModel) -> Seq<AnalysisModel> {
    Seq::new(plugins.len(), |i: int| plugins[i].analysis(ctx))
}

/// The report on a context, with what built-in plugins say of it.
pub fn analyze_with_builtin_plugins(
    ctx: &AnalysisContext,
    plugins: &Vec<BuiltinPlugin>,
    config: &ScoreConfig,
) -> (r: ScoreReport)
    ensures
        r@ == analyze::report_of(ctx@.files, analyses_of(plugins@, ctx@), config@),
{
    let mut analyses: Vec<PluginAnalysis> = Vec::new();
    let mut i: usize = 0;
    while i < plugins.len()
        invariant
            i <= plugins@.len(),
            analyses@.len() == i,
            forall|k: int|
                0 <= k < i ==> (#[trigger] analyses@[k])@ == plugins@[k].analysis(ctx@),
        decreases plugins@.len() - i,
    {
        analyses.push(plugins[i].analyze(ctx));
        i = i + 1;
    }
    assert(text::views(analyses@) =~= analyses_of(plugins@, ctx@));
    analyze::score_context(ctx, &analyses, config)
}

/// The plugins are called `go` and `ts`; the first name that is neither is the one that is unknown.
pub proof fn law_names_of_plugins(names: Seq<Seq<char>>, i: int)
    requires
        0 <= i <= names.len(),
        forall|j: int| 0 <= j < i ==> #[trigger] names[j] == "go"@ || names[j] == "ts"@,
        i < names.len() ==> names[i] != "go"@ && names[i] != "ts"@,
    ensures
        first_unknown(names) == (if i < names.len() {
            Some(names[i])
        } else {
            None
        }),
    decreases names.len(),
{
    if i > 0 {
        let rest = names.skip(1);
        assert(names[0] == "go"@ || names[0] == "ts"@);
        assert forall|j: int| 0 <= j < i - 1 implies #[trigger] rest[j] == "go"@ || rest[j]
            == "ts"@ by {
            assert(rest[j] == names[j + 1]);
        }
        law_names_of_plugins(rest, i - 1);
        assert(i < names.len() ==> rest[i - 1] == names[i]);
    }
}

/// Each plugin says what its language shows, by what it observed, and the plugins answer in their
/// order.
pub proof fn law_plugins_answer_in_order(
    first: Seq<BuiltinPlugin>,
    second: Seq<BuiltinPlugin>,
    go_plugin: GoPlugin,
    ts_plugin: TypeScriptPlugin,
    ctx: ContextModel,
)
    ensures
        analyses_of(first + second, ctx) == analyses_of(first, ctx) + analyses_of(second, ctx),
        analyses_of(seq![BuiltinPlugin::Go(go_plugin)], ctx) == seq![
            go::go_analysis(ctx, go_plugin.observation),
        ],
        analyses_of(seq![BuiltinPlugin::TypeScript(ts_plugin)], ctx) == seq![
            typescript::typescript_analysis(ctx, ts_plugin.observation),
        ],
{
    assert(analyses_of(first + second, ctx) =~= analyses_of(first, ctx) + analyses_of(second, ctx));
    assert(analyses_of(seq![BuiltinPlugin::Go(go_plugin)], ctx) =~= seq![
        go::go_analysis(ctx, go_plugin.observation),
    ]);
    assert(analyses_of(seq![BuiltinPlugin::TypeScript(ts_plugin)], ctx) =~= seq![
        typescript::typescript_analysis(ctx, ts_plugin.observation),
    ]);
}

/// The plugin for Go is the one that is named `go`, and the one for TypeScript is named `ts`.
pub proof fn law_plugins_have_their_names(plugin: BuiltinPlugin)
    ensures
        plugin.name() == "go"@ <==> plugin is Go,
        plugin.name() == "ts"@ <==> plugin is TypeScript,
{
    reveal_strlit("go");
    reveal_strlit("ts");
    assert("go"@[0] != "ts"@[0]);
}

} // verus!
