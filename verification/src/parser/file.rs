//! A whole `.adapto` file: its top-level `<route>`, `<script>`, `<template>`,
//! `<style>`, `<resource>` and `<layout>` blocks.

use vstd::prelude::*;
use crate::text::{
    find, find_from, find_from_exec, lemma_find_from, occurs_at, occurs_at_exec, slice_of,
    string_from, trim, trim_bounds, chars_of,
};
use crate::parser::ast::{AdaptoFile, StyleBlock};
use crate::parser::error::{ErrModel, ParseError, ParseResult};
use crate::parser::lex::{lines, split_lines, views, lemma_lines_bounded, to_string, trimmed};
use crate::parser::model::{LayoutModel, ResourceModel, RouteModel, ScriptModel, StyleModel};
use crate::parser::tmodel::{TNode, tnodes};
use crate::parser::blocks::{
    layout_block, parse_layout_block, parse_resource_block, parse_route_block, resource_block,
    route_block,
};
use crate::parser::script::{lines_bounded, parse_script_block, script_block, script_error};
use crate::parser::template::{parse_template_block, template_nodes};

verus! {

/// The kinds of top-level block.
#[derive(Clone, Copy, PartialEq, Eq, Structural)]
pub enum BlockKind {
    Route,
    Script,
    Template,
    Style,
    Resource,
    Layout,
}

pub open spec fn kind_name(k: BlockKind) -> Seq<char> {
    match k {
        BlockKind::Route => "route"@,
        BlockKind::Script => "script"@,
        BlockKind::Template => "template"@,
        BlockKind::Style => "style"@,
        BlockKind::Resource => "resource"@,
        BlockKind::Layout => "layout"@,
    }
}

fn kind_name_exec(k: BlockKind) -> (r: &'static str)
    ensures
        r@ == kind_name(k),
{
    match k {
        BlockKind::Route => "route",
        BlockKind::Script => "script",
        BlockKind::Template => "template",
        BlockKind::Style => "style",
        BlockKind::Resource => "resource",
        BlockKind::Layout => "layout",
    }
}

/// `name` at `q`, followed by `>`, a space or a line feed.
pub open spec fn name_follows(s: Seq<char>, q: int, name: Seq<char>) -> bool {
    occurs_at(s, q, name) && (occurs_at(s, q + name.len(), ">"@) || occurs_at(
        s,
        q + name.len(),
        " "@,
    ) || occurs_at(s, q + name.len(), "\n"@))
}

/// The kind of block whose name follows the `<` before `q`.
pub open spec fn kind_at(s: Seq<char>, q: int) -> Option<BlockKind> {
    if name_follows(s, q, "route"@) {
        Some(BlockKind::Route)
    } else if name_follows(s, q, "script"@) {
        Some(BlockKind::Script)
    } else if name_follows(s, q, "template"@) {
        Some(BlockKind::Template)
    } else if name_follows(s, q, "style"@) {
        Some(BlockKind::Style)
    } else if name_follows(s, q, "resource"@) {
        Some(BlockKind::Resource)
    } else if name_follows(s, q, "layout"@) {
        Some(BlockKind::Layout)
    } else {
        None
    }
}

fn name_follows_exec(s: &Vec<char>, q: usize, name: &str) -> (r: bool)
    requires
        q <= s.len(),
    ensures
        r == name_follows(s@, q as int, name@),
{
    let nc = chars_of(name);
    if !occurs_at_exec(s, q, &nc) {
        return false;
    }
    let e = q + nc.len();
    crate::parser::lex::starts_with_at(s, e, ">") || crate::parser::lex::starts_with_at(s, e, " ")
        || crate::parser::lex::starts_with_at(s, e, "\n")
}

fn kind_at_exec(s: &Vec<char>, q: usize) -> (r: Option<BlockKind>)
    requires
        q <= s.len(),
    ensures
        r == kind_at(s@, q as int),
{
    if name_follows_exec(s, q, "route") {
        Some(BlockKind::Route)
    } else if name_follows_exec(s, q, "script") {
        Some(BlockKind::Script)
    } else if name_follows_exec(s, q, "template") {
        Some(BlockKind::Template)
    } else if name_follows_exec(s, q, "style") {
        Some(BlockKind::Style)
    } else if name_follows_exec(s, q, "resource") {
        Some(BlockKind::Resource)
    } else if name_follows_exec(s, q, "layout") {
        Some(BlockKind::Layout)
    } else {
        None
    }
}

/// Position of the `</name>` that closes a block opened before `pos` at
/// nesting depth `d`, or -1; inner `<name` tags open nested blocks.
pub open spec fn matching_close(s: Seq<char>, pos: int, name: Seq<char>, d: int) -> int
    decreases s.len() - pos,
{
    if pos < 0 || pos >= s.len() {
        -1
    } else if occurs_at(s, pos, "</"@ + name + ">"@) {
        proof {
            reveal_strlit("</");
            reveal_strlit(">");
        }
        if d <= 1 {
            pos
        } else {
            matching_close(s, pos + name.len() + 3, name, d - 1)
        }
    } else if occurs_at(s, pos, "<"@ + name) {
        let after = pos + name.len() + 1;
        proof {
            reveal_strlit("<");
        }
        matching_close(
            s,
            after,
            name,
            if occurs_at(s, after, ">"@) || occurs_at(s, after, " "@) || occurs_at(s, after, "\n"@) {
                d + 1
            } else {
                d
            },
        )
    } else {
        matching_close(s, pos + 1, name, d)
    }
}

pub proof fn lemma_matching_close(s: Seq<char>, pos: int, name: Seq<char>, d: int)
    requires
        0 <= pos,
    ensures
        matching_close(s, pos, name, d) == -1 || (pos <= matching_close(s, pos, name, d)
            && occurs_at(s, matching_close(s, pos, name, d), "</"@ + name + ">"@)),
    decreases s.len() - pos,
{
    reveal_strlit("</");
    reveal_strlit(">");
    reveal_strlit("<");
    if pos < s.len() {
        if occurs_at(s, pos, "</"@ + name + ">"@) {
            if d > 1 {
                lemma_matching_close(s, pos + name.len() + 3, name, d - 1);
            }
        } else if occurs_at(s, pos, "<"@ + name) {
            let after = pos + name.len() + 1;
            let d2 = if occurs_at(s, after, ">"@) || occurs_at(s, after, " "@) || occurs_at(
                s,
                after,
                "\n"@,
            ) {
                d + 1
            } else {
                d
            };
            lemma_matching_close(s, after, name, d2);
        } else {
            lemma_matching_close(s, pos + 1, name, d);
        }
    }
}

/// The number of line feeds in `s`.
pub open spec fn newlines(s: Seq<char>) -> nat
    decreases s.len(),
{
    if s.len() == 0 {
        0
    } else {
        newlines(s.drop_last()) + if s.last() == '\n' {
            1nat
        } else {
            0nat
        }
    }
}

/// A top-level block as found: its kind, opening-tag attributes, inner text,
/// and the line of its opening tag (counted from 1).
pub struct RawModel {
    pub kind: BlockKind,
    pub attrs: Seq<char>,
    pub content: Seq<char>,
    pub start_line: int,
}

/// The blocks of `s` from position `off` on. Text outside blocks, HTML
/// comments and `<` that open no known block are passed over.
pub open spec fn blocks_from(s: Seq<char>, off: int) -> Result<Seq<RawModel>, ErrModel>
    decreases s.len() - off,
{
    if off < 0 || off >= s.len() {
        Ok(seq![])
    } else {
        let l = find_from(s, "<"@, off);
        proof {
            lemma_find_from(s, "<"@, off);
            reveal_strlit("<");
            reveal_strlit("-->");
        }
        if l < 0 {
            Ok(seq![])
        } else if occurs_at(s, l + 1, "!--"@) && find_from(s, "-->"@, l) >= 0 {
            proof {
                lemma_find_from(s, "-->"@, l);
            }
            blocks_from(s, find_from(s, "-->"@, l) + 3)
        } else {
            match kind_at(s, l + 1) {
                None => blocks_from(s, l + 1),
                Some(k) => {
                    let name = kind_name(k);
                    let line = newlines(s.take(l)) + 1int;
                    let g = find_from(s, ">"@, l + 1 + name.len());
                    if g < 0 {
                        Err(
                            ErrModel::Syntax {
                                line,
                                col: 1,
                                message: "Unclosed opening tag for <"@ + name + ">"@,
                            },
                        )
                    } else {
                        let cs = g + 1;
                        let cp = matching_close(s, cs, name, 1);
                        proof {
                            lemma_find_from(s, ">"@, l + 1 + name.len());
                            reveal_strlit(">");
                            reveal_strlit("</");
                            lemma_matching_close(s, cs, name, 1);
                        }
                        if cp < 0 {
                            Err(ErrModel::UnclosedBlock(name))
                        } else {
                            let b = RawModel {
                                kind: k,
                                attrs: trim(s.subrange(l + 1 + name.len(), g)),
                                content: s.subrange(cs, cp),
                                start_line: line,
                            };
                            match blocks_from(s, cp + name.len() + 3) {
                                Err(e) => Err(e),
                                Ok(rest) => Ok(seq![b] + rest),
                            }
                        }
                    }
                },
            }
        }
    }
}

/// A block found by `extract_blocks`.
pub struct RawBlock {
    pub kind: BlockKind,
    pub attrs: Vec<char>,
    pub content: Vec<char>,
    pub start_line: usize,
}

impl View for RawBlock {
    type V = RawModel;

    open spec fn view(&self) -> RawModel {
        RawModel {
            kind: self.kind,
            attrs: self.attrs@,
            content: self.content@,
            start_line: self.start_line as int,
        }
    }
}

/// The number of line feeds in `s[..hi]`.
fn count_newlines(s: &Vec<char>, hi: usize) -> (r: usize)
    requires
        hi <= s.len(),
    ensures
        r == newlines(s@.take(hi as int)),
        r <= hi,
{
    let mut n: usize = 0;
    let mut i: usize = 0;
    while i < hi
        invariant
            i <= hi,
            hi <= s.len(),
            n == newlines(s@.take(i as int)),
            n <= i,
        decreases hi - i,
    {
        proof {
            assert(s@.take(i + 1).drop_last() =~= s@.take(i as int));
        }
        if s[i] == '\n' {
            n += 1;
        }
        i += 1;
    }
    n
}

/// `matching_close(s, from, name, 1)` computed.
fn find_matching_close(s: &Vec<char>, from: usize, name: &str) -> (r: Option<usize>)
    requires
        from <= s.len(),
    ensures
        match r {
            Some(k) => matching_close(s@, from as int, name@, 1) == k,
            None => matching_close(s@, from as int, name@, 1) == -1,
        },
{
    let mut open = chars_of("<");
    let nc = chars_of(name);
    let mut close = chars_of("</");
    let mut j: usize = 0;
    let ghost o0 = open@;
    let ghost c0 = close@;
    while j < nc.len()
        invariant
            j <= nc.len(),
            open@ == o0 + nc@.take(j as int),
            close@ == c0 + nc@.take(j as int),
        decreases nc.len() - j,
    {
        open.push(nc[j]);
        close.push(nc[j]);
        proof {
            assert(nc@.take(j + 1) =~= nc@.take(j as int).push(nc@[j as int]));
        }
        j += 1;
    }
    close.push('>');
    proof {
        assert(nc@.take(nc.len() as int) =~= nc@);
        reveal_strlit("<");
        reveal_strlit("</");
        reveal_strlit(">");
        assert(open@ =~= "<"@ + name@);
        assert(close@ =~= "</"@ + name@ + ">"@);
    }
    // Nesting depth beyond the block being closed.
    let mut extra: usize = 0;
    let mut pos = from;
    while pos < s.len()
        invariant
            from <= pos,
            extra <= pos - from,
            open@ == "<"@ + name@,
            close@ == "</"@ + name@ + ">"@,
            nc@ == name@,
            matching_close(s@, from as int, name@, 1) == matching_close(s@, pos as int, name@, extra + 1),
        decreases s.len() - pos,
    {
        proof {
            reveal_strlit("<");
            reveal_strlit("</");
            reveal_strlit(">");
        }
        if occurs_at_exec(s, pos, &close) {
            if extra == 0 {
                return Some(pos);
            }
            extra -= 1;
            pos = pos + close.len();
        } else if occurs_at_exec(s, pos, &open) {
            let after = pos + open.len();
            if crate::parser::lex::starts_with_at(s, after, ">") || crate::parser::lex::starts_with_at(s, after, " ")
                || crate::parser::lex::starts_with_at(s, after, "\n") {
                extra += 1;
            }
            pos = after;
        } else {
            pos += 1;
        }
    }
    None
}

/// Finds the top-level blocks of `s`.
pub fn extract_blocks(s: &Vec<char>) -> (r: ParseResult<Vec<RawBlock>>)
    ensures
        match r {
            Ok(bs) => blocks_from(s@, 0) == Ok::<Seq<RawModel>, ErrModel>(
                bs@.map_values(|b: RawBlock| b@),
            ) && forall|j: int|
                0 <= j < bs.len() ==> (#[trigger] bs@[j]).content@.len() <= s.len()
                    && bs@[j].start_line <= s.len() + 1,
            Err(e) => blocks_from(s@, 0) == Err::<Seq<RawModel>, ErrModel>(e@),
        },
{
    let mut out: Vec<RawBlock> = Vec::new();
    let mut off: usize = 0;
    let lt = chars_of("<");
    let com_end = chars_of("-->");
    let gt = chars_of(">");
    loop
        invariant
            off <= s.len(),
            forall|j: int|
                0 <= j < out.len() ==> (#[trigger] out@[j]).content@.len() <= s.len()
                    && out@[j].start_line <= s.len() + 1,
            lt@ == "<"@,
            com_end@ == "-->"@,
            gt@ == ">"@,
            blocks_from(s@, 0) == match blocks_from(s@, off as int) {
                Ok(rest) => Ok::<Seq<RawModel>, ErrModel>(out@.map_values(|b: RawBlock| b@) + rest),
                Err(e) => Err(e),
            },
        decreases s.len() - off,
    {
        proof {
            reveal_strlit("<");
            reveal_strlit("-->");
            reveal_strlit(">");
            reveal_strlit("</");
            reveal_strlit("!--");
        }
        let ghost before = out@.map_values(|b: RawBlock| b@);
        if off >= s.len() {
            proof {
                assert(before + Seq::<RawModel>::empty() =~= before);
            }
            return Ok(out);
        }
        let l = match find_from_exec(s, &lt, off) {
            None => {
                proof {
                    assert(before + Seq::<RawModel>::empty() =~= before);
                }
                return Ok(out);
            },
            Some(l) => l,
        };
        proof {
            lemma_find_from(s@, "<"@, off as int);
        }
        if crate::parser::lex::starts_with_at(s, l + 1, "!--") {
            match find_from_exec(s, &com_end, l) {
                Some(e) => {
                    proof {
                        lemma_find_from(s@, "-->"@, l as int);
                    }
                    off = e + 3;
                    continue;
                },
                None => {},
            }
        }
        match kind_at_exec(s, l + 1) {
            None => {
                off = l + 1;
            },
            Some(k) => {
                let name = kind_name_exec(k);
                let nl = name.unicode_len();
                let line = count_newlines(s, l) + 1;
                let after_name = l + 1 + nl;
                proof {
                    assert(occurs_at(s@, l + 1, kind_name(k)));
                }
                let g = match find_from_exec(s, &gt, after_name) {
                    None => {
                        let mut m = string_from("Unclosed opening tag for <");
                        crate::text::append_str(&mut m, name);
                        crate::text::append_str(&mut m, ">");
                        return Err(ParseError::Syntax { line, col: 1, message: m });
                    },
                    Some(g) => g,
                };
                proof {
                    lemma_find_from(s@, ">"@, after_name as int);
                }
                let cs = g + 1;
                let cp = match find_matching_close(s, cs, name) {
                    None => {
                        return Err(ParseError::UnclosedBlock(string_from(name)));
                    },
                    Some(cp) => cp,
                };
                proof {
                    lemma_matching_close(s@, cs as int, name@, 1);
                }
                let (a, b) = trim_bounds(s, after_name, g);
                let blk = RawBlock {
                    kind: k,
                    attrs: slice_of(s, a, b),
                    content: slice_of(s, cs, cp),
                    start_line: line,
                };
                let ghost bv = blk@;
                out.push(blk);
                proof {
                    assert(out@.map_values(|b: RawBlock| b@) =~= before.push(bv));
                    let rest = blocks_from(s@, cp + nl + 3);
                    match rest {
                        Ok(r) => {
                            assert(before.push(bv) + r =~= before + (seq![bv] + r));
                        },
                        Err(_) => {},
                    }
                }
                off = cp + nl + 3;
            },
        }
    }
}


// ---------------------------------------------------------------------------
// The whole file
// ---------------------------------------------------------------------------

/// A parsed file with its blocks taken by their views.
#[verifier::ext_equal]
pub struct FileModel {
    pub route: Option<RouteModel>,
    pub script: Option<ScriptModel>,
    pub template: Option<Seq<TNode>>,
    pub style: Option<StyleModel>,
    pub resource: Option<ResourceModel>,
    pub layout: Option<LayoutModel>,
}

impl View for AdaptoFile {
    type V = FileModel;

    open spec fn view(&self) -> FileModel {
        FileModel {
            route: match self.route {
                Some(r) => Some(r@),
                None => None,
            },
            script: match self.script {
                Some(r) => Some(r@),
                None => None,
            },
            template: match self.template {
                Some(t) => Some(tnodes(t.children@)),
                None => None,
            },
            style: match self.style {
                Some(r) => Some(r@),
                None => None,
            },
            resource: match self.resource {
                Some(r) => Some(r@),
                None => None,
            },
            layout: match self.layout {
                Some(r) => Some(r@),
                None => None,
            },
        }
    }
}

pub open spec fn empty_file() -> FileModel {
    FileModel { route: None, script: None, template: None, style: None, resource: None, layout: None }
}

/// A `<style>` block: scoped unless its tag says `global` without `scoped`;
/// its text trimmed.
pub open spec fn style_of(b: RawModel) -> StyleModel {
    StyleModel {
        scoped: find(b.attrs, "scoped"@) >= 0 || !(find(b.attrs, "global"@) >= 0),
        content: trim(b.content),
    }
}

pub open spec fn duplicate(k: BlockKind) -> Result<FileModel, Option<ErrModel>> {
    Err(Some(ErrModel::DuplicateBlock(kind_name(k))))
}

/// The file `f` with block `b` added, or the error it meets.
pub open spec fn file_step(b: RawModel, f: FileModel) -> Result<FileModel, Option<ErrModel>> {
    match b.kind {
        BlockKind::Route => if f.route is Some {
            duplicate(b.kind)
        } else {
            match route_block(lines(b.content), b.start_line) {
                Err(e) => Err(Some(e)),
                Ok(r) => Ok(FileModel { route: Some(r), ..f }),
            }
        },
        BlockKind::Script => if f.script is Some {
            duplicate(b.kind)
        } else {
            match script_block(lines(b.content)) {
                None => Err(script_error(lines(b.content), 0, b.start_line)),
                Some(r) => Ok(FileModel { script: Some(r), ..f }),
            }
        },
        BlockKind::Template => if f.template is Some {
            duplicate(b.kind)
        } else {
            match template_nodes(b.content) {
                Err(e) => Err(Some(e)),
                Ok(r) => Ok(FileModel { template: Some(r), ..f }),
            }
        },
        BlockKind::Style => if f.style is Some {
            duplicate(b.kind)
        } else {
            Ok(FileModel { style: Some(style_of(b)), ..f })
        },
        BlockKind::Resource => if f.resource is Some {
            duplicate(b.kind)
        } else {
            match resource_block(b.attrs, lines(b.content), b.start_line) {
                Err(e) => Err(Some(e)),
                Ok(r) => Ok(FileModel { resource: Some(r), ..f }),
            }
        },
        BlockKind::Layout => if f.layout is Some {
            duplicate(b.kind)
        } else {
            match layout_block(b.attrs, lines(b.content)) {
                Err(e) => Err(Some(e)),
                Ok(r) => Ok(FileModel { layout: Some(r), ..f }),
            }
        },
    }
}

/// The file made of the blocks `bs[i..]` added to `f`.
pub open spec fn file_from(bs: Seq<RawModel>, i: int, f: FileModel) -> Result<FileModel, Option<ErrModel>>
    decreases bs.len() - i,
{
    if i < 0 || i >= bs.len() {
        Ok(f)
    } else {
        match file_step(bs[i], f) {
            Err(e) => Err(e),
            Ok(f2) => file_from(bs, i + 1, f2),
        }
    }
}

/// What `parse` gives for the text `s`.
pub open spec fn parse_spec(s: Seq<char>) -> Result<FileModel, Option<ErrModel>> {
    match blocks_from(s, 0) {
        Err(e) => Err(Some(e)),
        Ok(bs) => file_from(bs, 0, empty_file()),
    }
}

fn duplicate_exec(k: BlockKind) -> (e: ParseError)
    ensures
        e@ == ErrModel::DuplicateBlock(kind_name(k)),
{
    ParseError::DuplicateBlock(string_from(kind_name_exec(k)))
}

/// Reads the lines of a block's text, with the bounds the block readers need.
fn block_lines(content: &Vec<char>) -> (r: Vec<Vec<char>>)
    requires
        content.len() < 0x7000_0000,
    ensures
        views(r@) == lines(content@),
        lines_bounded(views(r@)),
{
    let ls = split_lines(content);
    proof {
        lemma_lines_bounded(content@);
    }
    ls
}

/// Adds block `b` to `file`.
#[verifier::rlimit(40)]
fn add_block(b: &RawBlock, file: &mut AdaptoFile) -> (r: ParseResult<()>)
    requires
        b.content.len() < 0x7000_0000,
        b.start_line <= 0x7000_0000,
    ensures
        match r {
            Ok(_) => file_step(b@, old(file)@) == Ok::<FileModel, Option<ErrModel>>(final(file)@),
            Err(e) => file_step(b@, old(file)@) == Err::<FileModel, Option<ErrModel>>(Some(e@)),
        },
{
    let ghost before = file@;
    match b.kind {
        BlockKind::Route => {
            if file.route.is_some() {
                return Err(duplicate_exec(b.kind));
            }
            let ls = block_lines(&b.content);
            let r = parse_route_block(&ls, b.start_line)?;
            let ghost rv = r@;
            file.route = Some(r);
            proof {
                assert(file@ =~= FileModel { route: Some(rv), ..before });
            }
        },
        BlockKind::Script => {
            if file.script.is_some() {
                return Err(duplicate_exec(b.kind));
            }
            let ls = block_lines(&b.content);
            let r = parse_script_block(&ls, b.start_line)?;
            let ghost rv = r@;
            file.script = Some(r);
            proof {
                assert(file@ =~= FileModel { script: Some(rv), ..before });
            }
        },
        BlockKind::Template => {
            if file.template.is_some() {
                return Err(duplicate_exec(b.kind));
            }
            let t = parse_template_block(&b.content)?;
            let ghost tv = tnodes(t.children@);
            file.template = Some(t);
            proof {
                assert(file@ =~= FileModel { template: Some(tv), ..before });
            }
        },
        BlockKind::Style => {
            if file.style.is_some() {
                return Err(duplicate_exec(b.kind));
            }
            let sc = chars_of("scoped");
            let gl = chars_of("global");
            let scoped = find_from_exec(&b.attrs, &sc, 0).is_some();
            let global = find_from_exec(&b.attrs, &gl, 0).is_some();
            let st = StyleBlock { scoped: scoped || !global, content: to_string(&trimmed(&b.content)) };
            let ghost sv = st@;
            file.style = Some(st);
            proof {
                assert(sv == style_of(b@));
                assert(file@ =~= FileModel { style: Some(sv), ..before });
            }
        },
        BlockKind::Resource => {
            if file.resource.is_some() {
                return Err(duplicate_exec(b.kind));
            }
            let ls = block_lines(&b.content);
            let r = parse_resource_block(&b.attrs, &ls, b.start_line)?;
            let ghost rv = r@;
            file.resource = Some(r);
            proof {
                assert(file@ =~= FileModel { resource: Some(rv), ..before });
            }
        },
        BlockKind::Layout => {
            if file.layout.is_some() {
                return Err(duplicate_exec(b.kind));
            }
            let ls = block_lines(&b.content);
            let r = parse_layout_block(&b.attrs, &ls)?;
            let ghost rv = r@;
            file.layout = Some(r);
            proof {
                assert(file@ =~= FileModel { layout: Some(rv), ..before });
            }
        },
    }
    Ok(())
}

/// Parses an `.adapto` source text into its blocks.
#[verifier::rlimit(60)]
pub fn parse(input: &str) -> (r: ParseResult<AdaptoFile>)
    requires
        input@.len() < 0x7000_0000,
    ensures
        match r {
            Ok(f) => parse_spec(input@) == Ok::<FileModel, Option<ErrModel>>(f@),
            Err(e) => parse_spec(input@) == Err::<FileModel, Option<ErrModel>>(Some(e@)),
        },
{
    let s = chars_of(input);
    let blocks = extract_blocks(&s)?;
    let ghost bs = blocks@.map_values(|b: RawBlock| b@);
    proof {
        assert(s@ == input@);
        assert(parse_spec(input@) == file_from(bs, 0, empty_file()));
    }
    let mut file = AdaptoFile {
        route: None,
        script: None,
        template: None,
        style: None,
        resource: None,
        layout: None,
    };
    proof {
        assert(file@ =~= empty_file());
    }
    let mut i: usize = 0;
    while i < blocks.len()
        invariant
            i <= blocks.len(),
            s.len() < 0x7000_0000,
            bs == blocks@.map_values(|b: RawBlock| b@),
            forall|j: int|
                0 <= j < blocks.len() ==> (#[trigger] blocks@[j]).content@.len() <= s.len()
                    && blocks@[j].start_line <= s.len() + 1,
            file_from(bs, 0, empty_file()) == file_from(bs, i as int, file@),
            parse_spec(input@) == file_from(bs, 0, empty_file()),
        decreases blocks.len() - i,
    {
        proof {
            assert(bs[i as int] == blocks@[i as int]@);
        }
        let ghost f0 = file@;
        let step = add_block(&blocks[i], &mut file);
        match step {
            Ok(_) => {},
            Err(e) => {
                proof {
                    assert(file_from(bs, i as int, f0) == file_step(bs[i as int], f0));
                    assert(parse_spec(input@) == file_from(bs, 0, empty_file()));
                    assert(parse_spec(input@) == Err::<FileModel, Option<ErrModel>>(Some(e@)));
                }
                return Err(e);
            },
        }
        i += 1;
    }
    Ok(file)
}

} // verus!
