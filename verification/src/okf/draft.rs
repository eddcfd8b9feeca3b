//! Draft objects: the front matter and body a new, non-active semantic
//! object starts from.

use vstd::prelude::*;

use crate::okf::time::{current_utc_timestamp, timestamp};
use crate::okf::validate::{id_problem, type_directory, validate_id};
use crate::text::{push_str_chars, str_chars, str_eq, string_from_chars};

verus! {

/// What `draft-init` writes: the file, the front matter to parse (before the
/// hashes are filled in) and the body.
pub struct DraftPlan {
    pub path: String,
    pub frontmatter_yaml: String,
    pub body: String,
    pub created_at: String,
}

/// The types a draft can have (References are captured, never drafted).
pub open spec fn draftable(t: Seq<char>) -> bool {
    t == "entity"@ || t == "concept"@ || t == "system"@ || t == "research"@ || t == "decision"@
}

/// `s` with every `-` replaced by a space.
pub open spec fn spaced(s: Seq<char>) -> Seq<char> {
    s.map_values(|c: char| if c == '-' {
        ' '
    } else {
        c
    })
}

/// Sixty-four zeros.
pub open spec fn zero_hex() -> Seq<char> {
    Seq::new(64, |i: int| '0')
}

/// The front matter of a new draft, with the type-specific pointer fields
/// after the common ones.
pub open spec fn draft_yaml(t: Seq<char>, slug: Seq<char>, now: Seq<char>) -> Seq<char> {
    "id: "@ + t + "."@ + slug + "\ntype: "@ + t + "\ntitle: Draft "@ + spaced(slug)
        + "\ndescription: Unverified draft knowledge; replace this description before review.\nlifecycle: draft\ncreated_at: \""@
        + now + "\"\nupdated_at: \""@ + now + "\"\ngenerated:\n  by: process:okf-draft/v1\n  at: \""@ + now
        + "\"\nclaims:\n- id: candidate\n  lifecycle: draft\n  statement: Replace this candidate proposition with the load-bearing conclusion under review.\n  load_bearing: true\n  semantic_hash: sha256:"@
        + zero_hex() + "\n"@ + type_fields(t, slug)
}

/// The type-specific fields of a draft.
pub open spec fn type_fields(t: Seq<char>, slug: Seq<char>) -> Seq<char> {
    if t == "concept"@ {
        "definition_claim: candidate\n"@
    } else if t == "system"@ {
        "behavior_claims:\n- candidate\n"@
    } else if t == "research"@ {
        "research_question: Replace with the research question.\n"@
    } else if t == "decision"@ {
        "decision_key: draft."@ + slug + "\ndecision_claim: candidate\n"@
    } else {
        Seq::empty()
    }
}

/// The body of a new draft of type `t`.
pub open spec fn draft_body(t: Seq<char>) -> Seq<char> {
    if t == "entity"@ {
        "## Definition\n\nReplace with the concrete thing being captured.\n\n## Identity and boundaries\n\nDescribe what is and is not included.\n"@
    } else if t == "concept"@ {
        "## Definition\n\nReplace with the durable definition.\n\n## Boundaries\n\nDescribe neighboring concepts and exclusions.\n"@
    } else if t == "system"@ {
        "## Purpose\n\nReplace with the purpose.\n\n## Boundary\n\nReplace with the system boundary.\n\n## Current behavior\n\nReplace with observed behavior.\n\n## Interfaces and dependencies\n\nReplace with relevant interfaces and dependencies.\n\n## Known limitations\n\nRecord known limitations.\n"@
    } else if t == "research"@ {
        "## Question\n\nReplace with the question.\n\n## Method and evidence\n\nRecord the method and primary evidence.\n\n## Findings\n\nRecord findings without promoting them.\n\n## Conclusions\n\nRecord the draft conclusion.\n\n## Limitations and uncertainty\n\nRecord uncertainty and missing evidence.\n"@
    } else {
        "## Context\n\nRecord the context.\n\n## Decision\n\nThis is a draft choice and is not active.\n\n## Rationale\n\nRecord available rationale.\n\n## Alternatives considered\n\nRecord alternatives.\n\n## Consequences\n\nRecord expected consequences.\n"@
    }
}

/// The problem with the arguments of `draft-init`, if any.
pub open spec fn draft_args_problem(args: Seq<Seq<char>>) -> Option<Seq<char>> {
    if args.len() != 2 {
        Some("draft-init requires <type> <slug>"@)
    } else if !draftable(args[0]) {
        Some("draft-init type must be entity, concept, system, research, or decision"@)
    } else {
        id_problem(args[0] + "."@ + args[1], args[0])
    }
}

/// The views of the arguments.
pub open spec fn arg_views(args: Seq<String>) -> Seq<Seq<char>> {
    args.map_values(|a: String| a@)
}

fn body_text(t: &str) -> (b: &'static str)
    requires
        draftable(t@),
    ensures
        b@ == draft_body(t@),
{
    if str_eq(t, "entity") {
        "## Definition\n\nReplace with the concrete thing being captured.\n\n## Identity and boundaries\n\nDescribe what is and is not included.\n"
    } else if str_eq(t, "concept") {
        "## Definition\n\nReplace with the durable definition.\n\n## Boundaries\n\nDescribe neighboring concepts and exclusions.\n"
    } else if str_eq(t, "system") {
        "## Purpose\n\nReplace with the purpose.\n\n## Boundary\n\nReplace with the system boundary.\n\n## Current behavior\n\nReplace with observed behavior.\n\n## Interfaces and dependencies\n\nReplace with relevant interfaces and dependencies.\n\n## Known limitations\n\nRecord known limitations.\n"
    } else if str_eq(t, "research") {
        "## Question\n\nReplace with the question.\n\n## Method and evidence\n\nRecord the method and primary evidence.\n\n## Findings\n\nRecord findings without promoting them.\n\n## Conclusions\n\nRecord the draft conclusion.\n\n## Limitations and uncertainty\n\nRecord uncertainty and missing evidence.\n"
    } else {
        "## Context\n\nRecord the context.\n\n## Decision\n\nThis is a draft choice and is not active.\n\n## Rationale\n\nRecord available rationale.\n\n## Alternatives considered\n\nRecord alternatives.\n\n## Consequences\n\nRecord expected consequences.\n"
    }
}

fn push_spaced(out: &mut Vec<char>, s: &str)
    ensures
        final(out)@ == old(out)@ + spaced(s@),
{
    let cs = str_chars(s);
    let ghost start = out@;
    let mut i: usize = 0;
    while i < cs.len()
        invariant
            cs@ == s@,
            i <= cs.len(),
            out@ == start + spaced(cs@.take(i as int)),
        decreases cs.len() - i,
    {
        let c = cs[i];
        out.push(if c == '-' {
            ' '
        } else {
            c
        });
        assert(spaced(cs@.take(i + 1)) =~= spaced(cs@.take(i as int)).push(if c == '-' {
            ' '
        } else {
            c
        }));
        i = i + 1;
    }
    assert(cs@.take(cs.len() as int) =~= cs@);
}

fn push_zero_hex(out: &mut Vec<char>)
    ensures
        final(out)@ == old(out)@ + zero_hex(),
{
    let ghost start = out@;
    let mut i: usize = 0;
    while i < 64
        invariant
            i <= 64,
            out@ == start + Seq::new(i as nat, |j: int| '0'),
        decreases 64 - i,
    {
        out.push('0');
        i = i + 1;
        assert(out@ =~= start + Seq::new(i as nat, |j: int| '0'));
    }
}

/// Plans a new draft object from `draft-init <type> <slug>`: the file
/// `okf/<directory>/<slug>.md`, its front matter stamped with the current
/// time, and the body of its type.
pub fn draft_init(args: &[String]) -> (r: Result<DraftPlan, String>)
    ensures
        match r {
            Err(e) => draft_args_problem(arg_views(args@)) == Some(e@),
            Ok(plan) => {
                &&& draft_args_problem(arg_views(args@)) is None
                &&& plan.path@ == "okf/"@ + type_directory(args@[0]@) + "/"@ + args@[1]@ + ".md"@
                &&& plan.frontmatter_yaml@ == draft_yaml(args@[0]@, args@[1]@, plan.created_at@)
                &&& plan.body@ == draft_body(args@[0]@)
                &&& exists|seconds: i64| plan.created_at@ == timestamp(seconds as int)
            },
        },
{
    if args.len() != 2 {
        return Err("draft-init requires <type> <slug>".to_owned());
    }
    let t = args[0].as_str();
    let slug = args[1].as_str();
    assert(arg_views(args@)[0] == t@ && arg_views(args@)[1] == slug@);
    if !(str_eq(t, "entity") || str_eq(t, "concept") || str_eq(t, "system") || str_eq(t, "research") || str_eq(t, "decision")) {
        return Err("draft-init type must be entity, concept, system, research, or decision".to_owned());
    }
    let id = crate::text::concat3(t, ".", slug);
    if let Err(e) = validate_id(id.as_str(), t) {
        return Err(e);
    }
    let directory = crate::okf::validate::directory_for(t);
    let path = crate::text::concat4("okf/", directory, "/", slug);
    let path = crate::text::concat2(path.as_str(), ".md");
    let now = current_utc_timestamp();
    let n = now.as_str();
    let mut y: Vec<char> = Vec::new();
    push_str_chars(&mut y, "id: ");
    push_str_chars(&mut y, t);
    push_str_chars(&mut y, ".");
    push_str_chars(&mut y, slug);
    push_str_chars(&mut y, "\ntype: ");
    push_str_chars(&mut y, t);
    push_str_chars(&mut y, "\ntitle: Draft ");
    push_spaced(&mut y, slug);
    push_str_chars(&mut y, "\ndescription: Unverified draft knowledge; replace this description before review.\nlifecycle: draft\ncreated_at: \"");
    push_str_chars(&mut y, n);
    push_str_chars(&mut y, "\"\nupdated_at: \"");
    push_str_chars(&mut y, n);
    push_str_chars(&mut y, "\"\ngenerated:\n  by: process:okf-draft/v1\n  at: \"");
    push_str_chars(&mut y, n);
    push_str_chars(&mut y, "\"\nclaims:\n- id: candidate\n  lifecycle: draft\n  statement: Replace this candidate proposition with the load-bearing conclusion under review.\n  load_bearing: true\n  semantic_hash: sha256:");
    push_zero_hex(&mut y);
    push_str_chars(&mut y, "\n");
    if str_eq(t, "concept") {
        push_str_chars(&mut y, "definition_claim: candidate\n");
    } else if str_eq(t, "system") {
        push_str_chars(&mut y, "behavior_claims:\n- candidate\n");
    } else if str_eq(t, "research") {
        push_str_chars(&mut y, "research_question: Replace with the research question.\n");
    } else if str_eq(t, "decision") {
        push_str_chars(&mut y, "decision_key: draft.");
        push_str_chars(&mut y, slug);
        push_str_chars(&mut y, "\ndecision_claim: candidate\n");
    }
    let body = body_text(t);
    Ok(DraftPlan { path, frontmatter_yaml: string_from_chars(&y), body: body.to_owned(), created_at: now })
}

} // verus!
