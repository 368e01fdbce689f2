//! The field rules: how the value of a target field is found for a record.

use vstd::prelude::*;
use crate::config::FieldRule;
use crate::html::{css_value, extract_css_value};
use crate::json::{
    extend_path, json_value_to_string, path_view, select_json_value, selected_text,
    value_text_at, JsonStep, StepView,
};
use crate::keyed::{text_map, value_of, StrMap};
use crate::links::{absolute_url, absolutize_url};
use crate::pattern::{captured, extract_with_regex, pattern_compiles, InvalidPattern};
use crate::text::{
    opt_view, owned, strip_prefix, trim_with, trimmed, without_prefix,
};

verus! {

/// What was extracted for one record: its fields by name, the address of
/// its document, the base for relative addresses, and its text.
#[derive(Clone, Debug)]
pub struct MappedRecord {
    pub fields: StrMap<String>,
    pub source_url: String,
    pub base_url: Option<String>,
    pub raw_text: String,
}

impl MappedRecord {
    pub open spec fn wf(&self) -> bool {
        self.fields.wf()
    }
}

/// Where a record comes from: a node of an HTML document, a node of a JSON
/// document, or a piece of text.
#[derive(Clone, Copy, Debug)]
pub enum MappingCtx<'a> {
    Html { html: &'a str, root: &'a str, index: usize },
    Json { body: &'a [u8], node: &'a Vec<JsonStep> },
    Text,
}

/// The mathematical value of a `MappingCtx`.
pub enum CtxView {
    Html { html: Seq<char>, root: Seq<char>, index: nat },
    Json { body: Seq<u8>, node: Seq<StepView> },
    Text,
}

impl<'a> View for MappingCtx<'a> {
    type V = CtxView;

    open spec fn view(&self) -> CtxView {
        match *self {
            MappingCtx::Html { html, root, index } => CtxView::Html {
                html: html@,
                root: root@,
                index: index as nat,
            },
            MappingCtx::Json { body, node } => CtxView::Json { body: body@, node: path_view(node@) },
            MappingCtx::Text => CtxView::Text,
        }
    }
}

/// The value of a field that has been resolved already.
pub open spec fn field_value(existing: Map<Seq<char>, Seq<char>>, name: Seq<char>) -> Option<
    Seq<char>,
> {
    if existing.contains_key(name) {
        Some(existing[name])
    } else {
        None
    }
}

/// The value that an expression selects, or the pattern that does not
/// compile.
///
/// `field:<name>` is the value of a field resolved before; `source_url` is
/// the address of the document; `regex:<pattern>` is the first group of the
/// first match of the pattern in the text of the record; `css:<selector>`
/// asks an HTML record and `json:<path>` a JSON record; anything else is,
/// for a JSON record, the name of a member of the record, and else the name
/// of a field resolved before.
pub open spec fn expression_value(
    expr: Seq<char>,
    ctx: CtxView,
    existing: Map<Seq<char>, Seq<char>>,
    raw_text: Seq<char>,
    source_url: Seq<char>,
) -> Result<Option<Seq<char>>, Seq<char>> {
    if without_prefix(expr, "field:"@) is Some {
        Ok(field_value(existing, without_prefix(expr, "field:"@)->0))
    } else if expr == "source_url"@ {
        Ok(Some(source_url))
    } else if without_prefix(expr, "regex:"@) is Some {
        let pattern = without_prefix(expr, "regex:"@)->0;
        if pattern_compiles(pattern) {
            Ok(captured(pattern, raw_text, 1))
        } else {
            Err(pattern)
        }
    } else {
        match ctx {
            CtxView::Html { html, root, index } if without_prefix(expr, "css:"@) is Some => Ok(
                css_value(html, root, index, without_prefix(expr, "css:"@)->0),
            ),
            CtxView::Json { body, node } => if without_prefix(expr, "json:"@) is Some {
                Ok(selected_text(body, node, without_prefix(expr, "json:"@)->0))
            } else {
                Ok(value_text_at(body, node.push(StepView::Key(expr))))
            },
            _ => Ok(field_value(existing, expr)),
        }
    }
}

fn lookup_field(existing: &StrMap<String>, name: &str) -> (r: Option<String>)
    requires
        existing.wf(),
    ensures
        opt_view(r) == field_value(text_map(*existing), name@),
{
    value_of(existing, name)
}

/// Finds the value that an expression selects.
pub fn evaluate_from_expression(
    expr: &str,
    ctx: MappingCtx<'_>,
    existing: &StrMap<String>,
    raw_text: &str,
    source_url: &str,
) -> (r: Result<Option<String>, InvalidPattern>)
    requires
        existing.wf(),
    ensures
        match r {
            Ok(v) => expression_value(
                expr@,
                ctx@,
                text_map(*existing),
                raw_text@,
                source_url@,
            ) == Ok::<
                Option<Seq<char>>,
                Seq<char>,
            >(opt_view(v)),
            Err(e) => expression_value(
                expr@,
                ctx@,
                text_map(*existing),
                raw_text@,
                source_url@,
            ) == Err::<
                Option<Seq<char>>,
                Seq<char>,
            >(e.pattern@),
        },
{
    match strip_prefix(expr, "field:") {
        Some(key) => {
            return Ok(lookup_field(existing, key.as_str()));
        },
        None => {},
    }
    if *expr == *"source_url" {
        return Ok(Some(owned(source_url)));
    }
    match strip_prefix(expr, "regex:") {
        Some(pattern) => {
            return extract_with_regex(raw_text, pattern.as_str(), 1);
        },
        None => {},
    }
    match ctx {
        MappingCtx::Html { html, root, index } => {
            match strip_prefix(expr, "css:") {
                Some(css) => {
                    return Ok(extract_css_value(html, root, index, css.as_str()));
                },
                None => {},
            }
        },
        MappingCtx::Json { body, node } => {
            return match strip_prefix(expr, "json:") {
                Some(path) => Ok(select_json_value(body, node, path.as_str())),
                None => Ok(json_value_to_string(body, &extend_path(node, JsonStep::Key(owned(expr))))),
            };
        },
        MappingCtx::Text => {},
    }
    Ok(lookup_field(existing, expr))
}

/// The value after the pattern of a rule has been applied to it.
pub open spec fn after_regex(
    value: Option<Seq<char>>,
    regex: Option<Seq<char>>,
    capture: Option<usize>,
) -> Result<Option<Seq<char>>, Seq<char>> {
    match (regex, value) {
        (Some(pattern), Some(v)) => if pattern_compiles(pattern) {
            Ok(
                captured(
                    pattern,
                    v,
                    match capture {
                        Some(c) => c as int,
                        None => 1,
                    },
                ),
            )
        } else {
            Err(pattern)
        },
        _ => Ok(value),
    }
}

/// The value after trimming and making absolute, as the rule asks; an empty
/// value is no value.
pub open spec fn finished(
    value: Option<Seq<char>>,
    trim: bool,
    absolutize: bool,
    base_url: Option<Seq<char>>,
) -> Option<Seq<char>> {
    match value {
        Some(v) => {
            let a = if trim {
                trimmed(v, true)
            } else {
                v
            };
            let b = if absolutize {
                absolute_url(base_url, a)
            } else {
                a
            };
            if b.len() == 0 {
                None
            } else {
                Some(b)
            }
        },
        None => None,
    }
}

/// The value of a target field under a rule, or the pattern that does not
/// compile.
///
/// The constant of the rule is the value where the rule has one; else the
/// value is what the rule's expression selects, the name of the field being
/// the expression where the rule has none. Then the rule's pattern is
/// applied, ASCII white space is trimmed and the value is made absolute,
/// each where the rule asks for it. An empty value is no value.
pub open spec fn rule_value(
    field_name: Seq<char>,
    rule: FieldRule,
    ctx: CtxView,
    existing: Map<Seq<char>, Seq<char>>,
    raw_text: Seq<char>,
    base_url: Option<Seq<char>>,
    source_url: Seq<char>,
) -> Result<Option<Seq<char>>, Seq<char>> {
    let first = match rule.const_value {
        Some(c) => Ok(Some(c@)),
        None => expression_value(
            match rule.from {
                Some(f) => f@,
                None => field_name,
            },
            ctx,
            existing,
            raw_text,
            source_url,
        ),
    };
    match first {
        Ok(value) => match after_regex(value, opt_view(rule.regex), rule.capture) {
            Ok(v) => Ok(finished(v, rule.trim, rule.absolutize, base_url)),
            Err(p) => Err(p),
        },
        Err(p) => Err(p),
    }
}

/// Applies the pattern of a rule to a value.
fn apply_regex(value: Option<String>, regex: &Option<String>, capture: Option<usize>) -> (r: Result<
    Option<String>,
    InvalidPattern,
>)
    ensures
        match r {
            Ok(v) => after_regex(opt_view(value), opt_view(*regex), capture) == Ok::<
                Option<Seq<char>>,
                Seq<char>,
            >(opt_view(v)),
            Err(e) => after_regex(opt_view(value), opt_view(*regex), capture) == Err::<
                Option<Seq<char>>,
                Seq<char>,
            >(e.pattern@),
        },
{
    match regex {
        Some(pattern) => match value {
            Some(v) => {
                let group = match capture {
                    Some(c) => c,
                    None => 1,
                };
                extract_with_regex(v.as_str(), pattern.as_str(), group)
            },
            None => Ok(None),
        },
        None => Ok(value),
    }
}

/// Trims a value and makes it absolute, as the rule asks.
fn finish(value: Option<String>, trim: bool, absolutize: bool, base_url: Option<&str>) -> (r: Option<
    String,
>)
    ensures
        opt_view(r) == finished(
            opt_view(value),
            trim,
            absolutize,
            match base_url {
                Some(b) => Some(b@),
                None => None,
            },
        ),
{
    match value {
        Some(v) => {
            let a = if trim {
                trim_with(v.as_str(), true)
            } else {
                v
            };
            let b = if absolutize {
                absolutize_url(base_url, a.as_str())
            } else {
                a
            };
            if b.as_str().unicode_len() == 0 {
                None
            } else {
                Some(b)
            }
        },
        None => None,
    }
}

/// Finds the value of a target field under its rule.
pub fn evaluate_field_rule(
    field_name: &str,
    rule: &FieldRule,
    ctx: MappingCtx<'_>,
    existing: &StrMap<String>,
    raw_text: &str,
    base_url: Option<&str>,
    source_url: &str,
) -> (r: Result<Option<String>, InvalidPattern>)
    requires
        existing.wf(),
    ensures
        match r {
            Ok(v) => rule_value(
                field_name@,
                *rule,
                ctx@,
                text_map(*existing),
                raw_text@,
                match base_url {
                    Some(b) => Some(b@),
                    None => None,
                },
                source_url@,
            ) == Ok::<Option<Seq<char>>, Seq<char>>(opt_view(v)),
            Err(e) => rule_value(
                field_name@,
                *rule,
                ctx@,
                text_map(*existing),
                raw_text@,
                match base_url {
                    Some(b) => Some(b@),
                    None => None,
                },
                source_url@,
            ) == Err::<Option<Seq<char>>, Seq<char>>(e.pattern@),
        },
{
    let first = match &rule.const_value {
        Some(c) => Some(c.clone()),
        None => {
            let from: &str = match &rule.from {
                Some(f) => f.as_str(),
                None => field_name,
            };
            match evaluate_from_expression(from, ctx, existing, raw_text, source_url) {
                Ok(v) => v,
                Err(e) => {
                    return Err(e);
                },
            }
        },
    };
    match apply_regex(first, &rule.regex, rule.capture) {
        Ok(v) => Ok(finish(v, rule.trim, rule.absolutize, base_url)),
        Err(e) => Err(e),
    }
}

} // verus!
