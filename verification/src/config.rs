//! Named processing configurations: which transformation pipeline to run and
//! what to produce (tokens, an AST, or a serialized AST).

use crate::text::{bytes_le, lemma_bytes_le_total, lemma_bytes_le_trans, str_eq, str_le, utf8};
use vstd::prelude::*;

verus! {

broadcast use vstd::seq_lib::group_to_multiset_ensures;

/// A named configuration.
#[derive(Debug, Clone)]
pub struct ProcessingConfig {
    pub name: String,
    pub description: String,
    pub pipeline_spec: PipelineSpec,
    pub target: TargetSpec,
}

/// Which transformation pipeline to run.
#[derive(Debug, Clone, PartialEq, Eq)]
pub enum PipelineSpec {
    /// Whitespace normalization, semantic indentation, blank lines.
    Indentation,
    /// The indentation pipeline, then line grouping and nesting.
    Linebased,
    /// The indentation pipeline, then line grouping, without nesting.
    LinebasedFlat,
    /// Raw tokens only.
    Raw,
}

/// What the pipeline produces.
#[derive(Debug, Clone, PartialEq, Eq)]
pub enum TargetSpec {
    /// Stop at tokens.
    Tokens,
    /// Build an AST with the given analyzer and builder.
    Ast { analyzer: AnalysisSpec, builder: BuilderSpec },
    /// Build an AST and serialize it to the named format.
    Serialized { analyzer: AnalysisSpec, builder: BuilderSpec, format: String },
}

/// Which syntactic analyzer to use.
#[derive(Debug, Clone, Copy, PartialEq, Eq)]
pub enum AnalysisSpec {
    Reference,
    Linebased,
}

/// Which AST builder to use.
#[derive(Debug, Clone, Copy, PartialEq, Eq)]
pub enum BuilderSpec {
    Lsp,
}

/// A target with its format as text.
pub enum TargetView {
    Tokens,
    Ast { analyzer: AnalysisSpec, builder: BuilderSpec },
    Serialized { analyzer: AnalysisSpec, builder: BuilderSpec, format: Seq<char> },
}

/// A configuration as values: name, description, pipeline and target.
pub type ConfigView = (Seq<char>, Seq<char>, PipelineSpec, TargetView);

/// The view of a target.
pub open spec fn target_view(t: TargetSpec) -> TargetView {
    match t {
        TargetSpec::Tokens => TargetView::Tokens,
        TargetSpec::Ast { analyzer, builder } => TargetView::Ast { analyzer, builder },
        TargetSpec::Serialized { analyzer, builder, format } => TargetView::Serialized {
            analyzer,
            builder,
            format: format@,
        },
    }
}

/// The view of a configuration.
pub open spec fn config_view(c: ProcessingConfig) -> ConfigView {
    (c.name@, c.description@, c.pipeline_spec, target_view(c.target))
}

/// The standard configurations.
pub open spec fn default_entries() -> Seq<ConfigView> {
    seq![
        (
            "default"@,
            "Stable: Indentation lexer + Reference analyzer + LSP builder"@,
            PipelineSpec::Indentation,
            TargetView::Ast { analyzer: AnalysisSpec::Reference, builder: BuilderSpec::Lsp },
        ),
        (
            "linebased"@,
            "Experimental: Linebased lexer + Linebased analyzer + LSP builder"@,
            PipelineSpec::Linebased,
            TargetView::Ast { analyzer: AnalysisSpec::Linebased, builder: BuilderSpec::Lsp },
        ),
        (
            "tokens-indentation"@,
            "Indentation transformations, output tokens"@,
            PipelineSpec::Indentation,
            TargetView::Tokens,
        ),
        (
            "tokens-linebased-flat"@,
            "Linebased up to LineTokens, output tokens"@,
            PipelineSpec::LinebasedFlat,
            TargetView::Tokens,
        ),
        (
            "tokens-linebased-tree"@,
            "Full linebased with tree, output tokens"@,
            PipelineSpec::Linebased,
            TargetView::Tokens,
        ),
        (
            "tokens-raw"@,
            "Raw tokens from base tokenization"@,
            PipelineSpec::Raw,
            TargetView::Tokens,
        ),
        (
            "lex-to-tag"@,
            "Parse and serialize to tag format (AST XML-like)"@,
            PipelineSpec::Indentation,
            TargetView::Serialized {
                analyzer: AnalysisSpec::Reference,
                builder: BuilderSpec::Lsp,
                format: "tag"@,
            },
        ),
        (
            "lex-to-treeviz"@,
            "Parse and serialize to treeviz format (tree visualization)"@,
            PipelineSpec::Indentation,
            TargetView::Serialized {
                analyzer: AnalysisSpec::Reference,
                builder: BuilderSpec::Lsp,
                format: "treeviz"@,
            },
        ),
        (
            "lex-to-tag-linebased"@,
            "Parse with linebased and serialize to tag format"@,
            PipelineSpec::Linebased,
            TargetView::Serialized {
                analyzer: AnalysisSpec::Linebased,
                builder: BuilderSpec::Lsp,
                format: "tag"@,
            },
        ),
        (
            "lex-to-treeviz-linebased"@,
            "Parse with linebased and serialize to treeviz format"@,
            PipelineSpec::Linebased,
            TargetView::Serialized {
                analyzer: AnalysisSpec::Linebased,
                builder: BuilderSpec::Lsp,
                format: "treeviz"@,
            },
        ),
    ]
}

/// The registered configurations, at most one per name.
pub struct ConfigRegistry {
    configs: Vec<ProcessingConfig>,
}

/// No two configurations share a name.
pub open spec fn unique_names(cs: Seq<ProcessingConfig>) -> bool {
    forall|i: int, j: int| 0 <= i < j < cs.len() ==> (#[trigger] cs[i]).name@ != (#[trigger] cs[j]).name@
}

/// Some configuration in `cs` has the given name.
pub open spec fn has_named(cs: Seq<ProcessingConfig>, name: Seq<char>) -> bool {
    exists|i: int| 0 <= i < cs.len() && (#[trigger] cs[i]).name@ == name
}

/// `i` is the first position in `cs` holding a configuration with the name.
pub open spec fn first_named(cs: Seq<ProcessingConfig>, name: Seq<char>, i: int) -> bool {
    &&& 0 <= i < cs.len()
    &&& cs[i].name@ == name
    &&& forall|j: int| 0 <= j < i ==> (#[trigger] cs[j]).name@ != name
}

/// The byte-wise order of configuration names.
pub open spec fn name_le(a: ProcessingConfig, b: ProcessingConfig) -> bool {
    bytes_le(utf8(a.name@), utf8(b.name@))
}

/// A configuration with the given fields.
fn config(
    name: &str,
    description: &str,
    pipeline_spec: PipelineSpec,
    target: TargetSpec,
) -> (r: ProcessingConfig)
    ensures
        r.name@ == name@,
        r.description@ == description@,
        r.pipeline_spec == pipeline_spec,
        r.target == target,
{
    ProcessingConfig {
        name: name.to_owned(),
        description: description.to_owned(),
        pipeline_spec,
        target,
    }
}

impl ConfigRegistry {
    /// The registered configurations, in the order they were first registered.
    pub closed spec fn spec_configs(&self) -> Seq<ProcessingConfig> {
        self.configs@
    }

    /// A registry holds at most one configuration per name.
    #[verifier::type_invariant]
    spec fn names_distinct(&self) -> bool {
        unique_names(self.configs@)
    }

    /// An empty registry.
    pub fn new() -> (r: ConfigRegistry)
        ensures
            r.spec_configs().len() == 0,
    {
        ConfigRegistry { configs: Vec::new() }
    }

    /// The position of the first configuration with the name, if any.
    fn position(&self, name: &str) -> (r: Option<usize>)
        ensures
            r is None <==> !has_named(self.spec_configs(), name@),
            r is Some ==> first_named(self.spec_configs(), name@, r->0 as int),
    {
        let mut i: usize = 0;
        while i < self.configs.len()
            invariant
                i <= self.spec_configs().len(),
                forall|j: int| 0 <= j < i ==> (#[trigger] self.spec_configs()[j]).name@ != name@,
            decreases self.spec_configs().len() - i,
        {
            if str_eq(self.configs[i].name.as_str(), name) {
                return Some(i);
            }
            i = i + 1;
        }
        None
    }

    /// Register a configuration, replacing the one with the same name if there
    /// is one.
    pub fn register(&mut self, config: ProcessingConfig)
        ensures
            registered(old(self).spec_configs(), final(self).spec_configs(), config),
    {
        proof {
            use_type_invariant(&*self);
        }
        match self.position(config.name.as_str()) {
            Some(i) => {
                let ghost before = self.spec_configs();
                let ghost c = config;
                let mut v: Vec<ProcessingConfig> = Vec::new();
                std::mem::swap(&mut v, &mut self.configs);
                v.set(i, config);
                proof {
                    assert(v@ == before.update(i as int, c));
                    assert forall|a: int, b: int| 0 <= a < b < v@.len() implies (#[trigger] v@[a]).name@
                        != (#[trigger] v@[b]).name@ by {
                        if a == i as int {
                            assert(before[b].name@ != before[a].name@);
                        } else if b == i as int {
                            assert(before[b].name@ != before[a].name@);
                        }
                    }
                }
                self.configs = v;
            },
            None => {
                let ghost before = self.spec_configs();
                let mut v: Vec<ProcessingConfig> = Vec::new();
                std::mem::swap(&mut v, &mut self.configs);
                v.push(config);
                proof {
                    assert forall|a: int, b: int| 0 <= a < b < v@.len() implies (#[trigger] v@[a]).name@
                        != (#[trigger] v@[b]).name@ by {
                        if b == before.len() {
                            assert(before[a].name@ != config.name@);
                        } else {
                            assert(v@[a] == before[a] && v@[b] == before[b]);
                        }
                    }
                }
                self.configs = v;
            },
        }
    }

    /// The configuration with the given name.
    pub fn get(&self, name: &str) -> (r: Option<&ProcessingConfig>)
        ensures
            r is None <==> !has_named(self.spec_configs(), name@),
            r is Some ==> exists|i: int|
                first_named(self.spec_configs(), name@, i) && *r->0 == self.spec_configs()[i],
    {
        match self.position(name) {
            Some(i) => Some(&self.configs[i]),
            None => None,
        }
    }

    /// Whether a configuration with the given name is registered.
    pub fn has(&self, name: &str) -> (r: bool)
        ensures
            r == has_named(self.spec_configs(), name@),
    {
        self.position(name).is_some()
    }

    /// All configurations, ordered by name: each registered configuration
    /// once, names strictly ascending.
    pub fn list_all(&self) -> (r: Vec<&ProcessingConfig>)
        ensures
            r@.len() == self.spec_configs().len(),
            r@.map_values(|c: &ProcessingConfig| *c).to_multiset()
                == self.spec_configs().to_multiset(),
            forall|i: int, j: int|
                0 <= i < j < r@.len() ==> name_le(*r@[i], *r@[j]) && r@[i].name@ != r@[j].name@,
    {
        proof {
            use_type_invariant(self);
        }
        let ghost cs = self.configs@;
        let mut out: Vec<&ProcessingConfig> = Vec::new();
        let mut i: usize = 0;
        while i < self.configs.len()
            invariant
                i <= cs.len(),
                cs == self.configs@,
                unique_names(cs),
                out@.len() == i,
                out@.map_values(|c: &ProcessingConfig| *c).to_multiset() == cs.take(
                    i as int,
                ).to_multiset(),
                forall|a: int, b: int| 0 <= a < b < out@.len() ==> name_le(*out@[a], *out@[b]),
                forall|a: int, b: int|
                    0 <= a < b < out@.len() ==> (#[trigger] out@[a]).name@ != (#[trigger] out@[b]).name@,
                forall|a: int| 0 <= a < out@.len() ==> exists|j: int| 0 <= j < i && *(#[trigger] out@[a]) == cs[j],
            decreases cs.len() - i,
        {
            let c = &self.configs[i];
            let mut p: usize = 0;
            while p < out.len() && str_le(out[p].name.as_str(), c.name.as_str())
                invariant
                    p <= out@.len(),
                    forall|k: int| 0 <= k < p ==> name_le(*out@[k], *c),
                decreases out@.len() - p,
            {
                p = p + 1;
            }
            let ghost before = out@;
            proof {
                assert forall|k: int| p <= k < before.len() implies name_le(*c, *before[k]) by {
                    if k > p as int {
                        assert(name_le(*before[p as int], *before[k]));
                        lemma_bytes_le_total(utf8(before[p as int].name@), utf8(c.name@));
                        lemma_bytes_le_trans(utf8(c.name@), utf8(before[p as int].name@), utf8(before[k].name@));
                    } else {
                        lemma_bytes_le_total(utf8(before[p as int].name@), utf8(c.name@));
                    }
                }
                assert forall|k: int| 0 <= k < before.len() implies before[k].name@ != c.name@ by {
                    let j = choose|j: int| 0 <= j < i && *before[k] == cs[j];
                    assert(cs[j].name@ != cs[i as int].name@);
                }
            }
            out.insert(p, c);
            proof {
                let f = |x: &ProcessingConfig| *x;
                let after = out@;
                assert(after.remove(p as int) =~= before);
                assert(after.map_values(f).remove(p as int) =~= before.map_values(f));
                let am = after.map_values(f);
                assert(am[p as int] == *c);
                let big = am.to_multiset();
                am.to_multiset_ensures();
                cs.take(i + 1).to_multiset_ensures();
                cs.take(i as int).to_multiset_ensures();
                assert(am.remove(p as int).to_multiset() == big.remove(*c));
                assert(am.contains(*c));
                assert(big.count(*c) > 0);
                assert(big =~= big.remove(*c).insert(*c));
                assert(big =~= before.map_values(f).to_multiset().insert(*c));
                assert(cs.take(i + 1) =~= cs.take(i as int).push(cs[i as int]));
                assert(cs.take(i + 1).to_multiset() =~= cs.take(i as int).to_multiset().insert(cs[i as int]));
                assert forall|a: int, b: int|
                    0 <= a < b < after.len() implies (#[trigger] after[a]).name@ != (#[trigger] after[b]).name@ by {
                    if a < p && b < p {
                        assert(after[a] == before[a] && after[b] == before[b]);
                    } else if a < p && b == p {
                        assert(after[a] == before[a]);
                    } else if a < p {
                        assert(after[a] == before[a] && after[b] == before[b - 1]);
                    } else if a == p {
                        assert(after[b] == before[b - 1]);
                    } else {
                        assert(after[a] == before[a - 1] && after[b] == before[b - 1]);
                    }
                }
                assert forall|a: int| 0 <= a < after.len() implies exists|j: int| 0 <= j < i + 1 && *(#[trigger] after[a]) == cs[j] by {
                    if a < p {
                        assert(after[a] == before[a]);
                    } else if a == p {
                        assert(*after[a] == cs[i as int]);
                    } else {
                        assert(after[a] == before[a - 1]);
                    }
                }
            }
            i = i + 1;
        }
        proof {
            assert(cs.take(cs.len() as int) =~= cs);
        }
        out
    }

    /// The registry with the standard configurations, in this order:
    /// `default`, `linebased`, `tokens-indentation`, `tokens-linebased-flat`,
    /// `tokens-linebased-tree`, `tokens-raw`, `lex-to-tag`, `lex-to-treeviz`,
    /// `lex-to-tag-linebased`, `lex-to-treeviz-linebased`, each with every
    /// field as `default_entries` gives it.
    pub fn with_defaults() -> (r: ConfigRegistry)
        ensures
            r.spec_configs().len() == 10,
            forall|k: int| 0 <= k < 10 ==> #[trigger] config_view(r.spec_configs()[k]) == default_entries()[k],
    {
        let mut v: Vec<ProcessingConfig> = Vec::new();
        v.push(
            config(
                "default",
                "Stable: Indentation lexer + Reference analyzer + LSP builder",
                PipelineSpec::Indentation,
                TargetSpec::Ast { analyzer: AnalysisSpec::Reference, builder: BuilderSpec::Lsp },
            ),
        );
        v.push(
            config(
                "linebased",
                "Experimental: Linebased lexer + Linebased analyzer + LSP builder",
                PipelineSpec::Linebased,
                TargetSpec::Ast { analyzer: AnalysisSpec::Linebased, builder: BuilderSpec::Lsp },
            ),
        );
        v.push(
            config(
                "tokens-indentation",
                "Indentation transformations, output tokens",
                PipelineSpec::Indentation,
                TargetSpec::Tokens,
            ),
        );
        v.push(
            config(
                "tokens-linebased-flat",
                "Linebased up to LineTokens, output tokens",
                PipelineSpec::LinebasedFlat,
                TargetSpec::Tokens,
            ),
        );
        v.push(
            config(
                "tokens-linebased-tree",
                "Full linebased with tree, output tokens",
                PipelineSpec::Linebased,
                TargetSpec::Tokens,
            ),
        );
        v.push(
            config(
                "tokens-raw",
                "Raw tokens from base tokenization",
                PipelineSpec::Raw,
                TargetSpec::Tokens,
            ),
        );
        v.push(
            config(
                "lex-to-tag",
                "Parse and serialize to tag format (AST XML-like)",
                PipelineSpec::Indentation,
                TargetSpec::Serialized {
                    analyzer: AnalysisSpec::Reference,
                    builder: BuilderSpec::Lsp,
                    format: "tag".to_owned(),
                },
            ),
        );
        v.push(
            config(
                "lex-to-treeviz",
                "Parse and serialize to treeviz format (tree visualization)",
                PipelineSpec::Indentation,
                TargetSpec::Serialized {
                    analyzer: AnalysisSpec::Reference,
                    builder: BuilderSpec::Lsp,
                    format: "treeviz".to_owned(),
                },
            ),
        );
        v.push(
            config(
                "lex-to-tag-linebased",
                "Parse with linebased and serialize to tag format",
                PipelineSpec::Linebased,
                TargetSpec::Serialized {
                    analyzer: AnalysisSpec::Linebased,
                    builder: BuilderSpec::Lsp,
                    format: "tag".to_owned(),
                },
            ),
        );
        v.push(
            config(
                "lex-to-treeviz-linebased",
                "Parse with linebased and serialize to treeviz format",
                PipelineSpec::Linebased,
                TargetSpec::Serialized {
                    analyzer: AnalysisSpec::Linebased,
                    builder: BuilderSpec::Lsp,
                    format: "treeviz".to_owned(),
                },
            ),
        );
        proof {
            reveal_strlit("default");
            reveal_strlit("linebased");
            reveal_strlit("tokens-indentation");
            reveal_strlit("tokens-linebased-flat");
            reveal_strlit("tokens-linebased-tree");
            reveal_strlit("tokens-raw");
            reveal_strlit("lex-to-tag");
            reveal_strlit("lex-to-treeviz");
            reveal_strlit("lex-to-tag-linebased");
            reveal_strlit("lex-to-treeviz-linebased");
            assert forall|a: int, b: int| 0 <= a < b < v@.len() implies (#[trigger] v@[a]).name@
                != (#[trigger] v@[b]).name@ by {
                assert(config_view(v@[a]).0 == default_entries()[a].0);
                assert(config_view(v@[b]).0 == default_entries()[b].0);
                let x = default_entries()[a].0;
                let y = default_entries()[b].0;
                assert(x.len() != y.len() || x[0] != y[0] || x[17] != y[17]);
            }
        }
        ConfigRegistry { configs: v }
    }
}

impl Default for ConfigRegistry {
    fn default() -> (r: ConfigRegistry)
        ensures
            r.spec_configs().len() == 10,
    {
        ConfigRegistry::with_defaults()
    }
}

} // verus!

verus! {

/// What registering a configuration does to the list: the first
/// configuration with its name is replaced, or it is appended when there is
/// none.
pub open spec fn registered(
    before: Seq<ProcessingConfig>,
    after: Seq<ProcessingConfig>,
    config: ProcessingConfig,
) -> bool {
    &&& has_named(before, config.name@) ==> exists|i: int|
        first_named(before, config.name@, i) && after == before.update(i, config)
    &&& !has_named(before, config.name@) ==> after == before.push(config)
}

/// After a configuration is registered, looking up its name finds it, and
/// looking up any other name finds what it found before.
pub proof fn lemma_register_then_get(
    before: Seq<ProcessingConfig>,
    after: Seq<ProcessingConfig>,
    config: ProcessingConfig,
    other: Seq<char>,
)
    requires
        registered(before, after, config),
    ensures
        after.len() == before.len() + if has_named(before, config.name@) {
            0int
        } else {
            1int
        },
        has_named(after, config.name@),
        forall|i: int| first_named(after, config.name@, i) ==> after[i] == config,
        other != config.name@ ==> (has_named(after, other) <==> has_named(before, other)),
        other != config.name@ ==> forall|i: int|
            first_named(after, other, i) ==> first_named(before, other, i) && after[i] == before[i],
{
    if has_named(before, config.name@) {
        let k = choose|i: int| first_named(before, config.name@, i) && after == before.update(i, config);
        assert(after[k] == config);
        assert forall|i: int| first_named(after, config.name@, i) implies after[i] == config by {
            if i < k {
                assert(after[i] == before[i]);
            } else if i > k {
                assert(after[k].name@ == config.name@);
            }
        }
        if other != config.name@ {
            if has_named(before, other) {
                let j = choose|j: int| 0 <= j < before.len() && (#[trigger] before[j]).name@ == other;
                if j == k {
                    assert(false);
                }
                assert(after[j] == before[j]);
            }
            if has_named(after, other) {
                let j = choose|j: int| 0 <= j < after.len() && (#[trigger] after[j]).name@ == other;
                if j == k {
                    assert(false);
                }
                assert(after[j] == before[j]);
            }
            assert forall|i: int| first_named(after, other, i) implies first_named(before, other, i)
                && after[i] == before[i] by {
                assert(i != k);
                assert forall|j: int| 0 <= j < i implies (#[trigger] before[j]).name@ != other by {
                    if j == k {
                        assert(before[j].name@ == config.name@);
                    } else {
                        assert(after[j] == before[j]);
                    }
                }
            }
        }
    } else {
        let n = before.len() as int;
        assert(after[n] == config);
        assert forall|i: int| first_named(after, config.name@, i) implies after[i] == config by {
            if i < n {
                assert(after[i] == before[i]);
                assert(has_named(before, config.name@));
            }
        }
        if other != config.name@ {
            if has_named(after, other) {
                let j = choose|j: int| 0 <= j < after.len() && (#[trigger] after[j]).name@ == other;
                assert(j < n);
                assert(after[j] == before[j]);
            }
            if has_named(before, other) {
                let j = choose|j: int| 0 <= j < before.len() && (#[trigger] before[j]).name@ == other;
                assert(after[j] == before[j]);
            }
            assert forall|i: int| first_named(after, other, i) implies first_named(before, other, i)
                && after[i] == before[i] by {
                assert(i < n);
                assert forall|j: int| 0 <= j < i implies (#[trigger] before[j]).name@ != other by {
                    assert(after[j] == before[j]);
                }
            }
        }
    }
}

} // verus!
