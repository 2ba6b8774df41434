//! A weighted-grammar "shader art" pipeline: a textual grammar format is
//! parsed into weighted rewrite rules, a rule is stochastically expanded into
//! a closed expression tree, the tree is constant-folded, and the result is
//! either compiled to fragment-shader source text or evaluated directly to a
//! color per sample point.

pub mod bnf_lexer;
pub mod bnf_parser;
pub mod grammar;
pub mod grammar_lang;
pub mod node;
pub mod roundtrip;
pub mod scalar;

use crate::bnf_parser::{spec_parse, Parser};
use crate::grammar::{always_resolves_rule, resolves_rule, spec_default_grammar, Grammar,
    GrammarS};
use crate::node::{spec_subst, FnNode};
use vstd::prelude::*;

verus! {

/// The fragment-shader source around one generated color expression; the
/// `%s` placeholder receives the expression text, which may use the bound
/// names `x`, `y` and `t`.
pub open spec fn spec_fragment_template() -> Seq<char> {
    "
struct VertexOutput {
    @builtin(position) clip_position: vec4<f32>,
    @location(0) tex_coords: vec2<f32>,
};

struct Uniforms {
    time: f32,
    _padding: vec3<f32>, // Ensure 16-byte alignment
};

@group(0) @binding(0)
var<uniform> uniforms: Uniforms;

fn map_rgb(rgb: vec3<f32>) -> vec4<f32> {
    return vec4<f32>(rgb + 0.5, 1.0);
}

@fragment
fn fs_main(in: VertexOutput) -> @location(0) vec4<f32> {
    let x = in.tex_coords.x;
    let y = in.tex_coords.y;
    let t = tan(uniforms.time);
    return map_rgb(%s);
}
"@
}

/// The fragment-shader template as borrowed text.
pub fn fragment_template() -> (r: &'static str)
    ensures
        r@ == spec_fragment_template(),
{
    "
struct VertexOutput {
    @builtin(position) clip_position: vec4<f32>,
    @location(0) tex_coords: vec2<f32>,
};

struct Uniforms {
    time: f32,
    _padding: vec3<f32>, // Ensure 16-byte alignment
};

@group(0) @binding(0)
var<uniform> uniforms: Uniforms;

fn map_rgb(rgb: vec3<f32>) -> vec4<f32> {
    return vec4<f32>(rgb + 0.5, 1.0);
}

@fragment
fn fs_main(in: VertexOutput) -> @location(0) vec4<f32> {
    let x = in.tex_coords.x;
    let y = in.tex_coords.y;
    let t = tan(uniforms.time);
    return map_rgb(%s);
}
"
}

/// The grammar the shader generator works from: the built-in default for
/// empty input, the parsed grammar otherwise (meaningful only where the
/// parse succeeds).
pub open spec fn spec_source_grammar(inp: Seq<char>) -> GrammarS {
    if inp.len() == 0 {
        spec_default_grammar()
    } else {
        match spec_parse(inp) {
            Ok(gs) => gs,
            Err(_) => Seq::<(Seq<char>, crate::grammar::RuleS)>::empty(),
        }
    }
}

/// Produce one complete fragment shader: parse the grammar text (empty text
/// selects the built-in default grammar), derive one expression from rule 0
/// with a depth budget of 10, fold it, and splice it into the template.
/// Parse failure, and derivation that exhausts its budget, are errors; on a
/// grammar whose rule 0 derives under every draw at that depth, the
/// generator succeeds, and every success is the template filled with the
/// folded emission of a derivation of that grammar's rule 0.
pub fn generate_fragment_shader(inp: &str) -> (r: Result<String, String>)
    ensures
        inp@.len() > 0 && spec_parse(inp@) is Err ==> r is Err,
        r matches Ok(s) ==> exists|n: FnNode|
            #[trigger] resolves_rule(spec_source_grammar(inp@), 0, n, 10) && n.is_resolved()
                && s@ == spec_subst(spec_fragment_template(), n.spec_optimize().spec_emit()),
        (inp@.len() == 0 || spec_parse(inp@) is Ok) && always_resolves_rule(
            spec_source_grammar(inp@),
            0,
            10,
        ) ==> r is Ok,
{
    let grammar = if inp.unicode_len() == 0 {
        Grammar::default()
    } else {
        let mut parser = Parser::new(inp);
        match parser.parse() {
            Ok(g) => g,
            Err(_) => {
                return Err(String::from_str("Failed to parse grammar"));
            },
        }
    };
    proof {
        assert(grammar@ == spec_source_grammar(inp@));
    }
    let func = grammar.gen_from_rule(0, 10);
    match func {
        None => Err(String::from_str("Failed to generate function")),
        Some(mut f) => {
            let ghost derived = f;
            match f.compile_to_glsl_fs(fragment_template()) {
                Ok(s) => {
                    proof {
                        assert(resolves_rule(spec_source_grammar(inp@), 0, derived, 10)
                            && derived.is_resolved() && s@ == spec_subst(
                            spec_fragment_template(),
                            derived.spec_optimize().spec_emit(),
                        ));
                    }
                    Ok(s)
                },
                Err(e) => Err(e),
            }
        },
    }
}

} // verus!
