//! The aggregator: the top-level loop over the manifest. It dispatches
//! between directives and metadata lines, forward-attaches pending metadata
//! to the next directive, and produces the final ordered document.

use vstd::prelude::*;

use crate::brew_command::{lemma_spec_brew_range, spec_brew, BrewCommand, BrewView};
use crate::chars::{
    ident_end, ident_end_at, is_blank_char, lemma_ident_end_range, lemma_skip_blanks_range,
    lemma_skip_ws_range, range_is_word, skip_blank_chars, skip_blanks, skip_ws, skip_ws_chars,
};
use crate::error::{ErrorKind, ParseError};
use crate::metafield::{lemma_spec_metafield_range, spec_metafield, Metafield, MetafieldView};
use crate::tap_command::{lemma_spec_tap_range, spec_tap, TapCommand, TapView};

verus! {

/// One directive: a source repository to register or a package to install.
#[derive(Debug, Clone, PartialEq)]
pub enum Command {
    Brew(BrewCommand),
    Tap(TapCommand),
}

/// The mathematical value of a directive.
pub enum CommandView {
    Brew(BrewView),
    Tap(TapView),
}

impl View for Command {
    type V = CommandView;

    open spec fn view(&self) -> CommandView {
        match self {
            Command::Brew(b) => CommandView::Brew(b@),
            Command::Tap(t) => CommandView::Tap(t@),
        }
    }
}

impl DeepView for Command {
    type V = CommandView;

    open spec fn deep_view(&self) -> CommandView {
        self.view()
    }
}

/// One annotated directive of the final document: the directive together
/// with the metadata declared on the `##` lines before it (an empty
/// description and a false optional flag when none was declared).
#[derive(Debug, Clone, PartialEq)]
pub struct MetaCommand {
    pub description: String,
    pub optional: bool,
    pub command: Command,
}

/// The mathematical value of an annotated directive.
pub struct MetaView {
    pub description: Seq<char>,
    pub optional: bool,
    pub command: CommandView,
}

impl View for MetaCommand {
    type V = MetaView;

    open spec fn view(&self) -> MetaView {
        MetaView { description: self.description@, optional: self.optional, command: self.command@ }
    }
}

impl DeepView for MetaCommand {
    type V = MetaView;

    open spec fn deep_view(&self) -> MetaView {
        self.view()
    }
}

/// What one top-level dispatch step yields: a directive, or a metadata
/// field (`None` for a plain commentary line).
pub enum Step {
    Directive(Command),
    Field(Option<Metafield>),
}

/// The mathematical value of one dispatch step.
pub enum StepView {
    Directive(CommandView),
    Field(Option<MetafieldView>),
}

impl View for Step {
    type V = StepView;

    open spec fn view(&self) -> StepView {
        match self {
            Step::Directive(c) => StepView::Directive(c@),
            Step::Field(f) => StepView::Field(f.deep_view()),
        }
    }
}

/// Merging one metadata field into the pending state: a description
/// replaces the pending description, the optional flag sets the pending
/// flag. Merging is applied per metadata line, in source order.
pub open spec fn merge_field(desc: Seq<char>, opt: bool, f: MetafieldView) -> (Seq<char>, bool) {
    match f {
        MetafieldView::Description(d) => (d, opt),
        MetafieldView::Optional => (desc, true),
    }
}

/// The optional flag is idempotent: declaring `@optional` twice before one
/// directive is the same as declaring it once. A later `@description`
/// replaces an earlier one, leaving the flag alone.
pub proof fn lemma_merge_field_laws(desc: Seq<char>, opt: bool, d1: Seq<char>, d2: Seq<char>)
    ensures
        ({
            let once = merge_field(desc, opt, MetafieldView::Optional);
            merge_field(once.0, once.1, MetafieldView::Optional) == once
        }),
        ({
            let first = merge_field(desc, opt, MetafieldView::Description(d1));
            merge_field(first.0, first.1, MetafieldView::Description(d2)) == merge_field(
                desc,
                opt,
                MetafieldView::Description(d2),
            )
        }),
{
}

/// Reference parse of one top-level unit at `i` (a non-whitespace
/// position): the `##` marker followed by a mandatory blank introduces a
/// metadata line; otherwise a bare identifier followed by a mandatory blank
/// selects the `tap` or `brew` directive parser; anything else is an
/// unknown directive.
pub open spec fn spec_dispatch(s: Seq<char>, i: int) -> Result<(StepView, int), (ErrorKind, int)> {
    if 0 <= i && i + 1 < s.len() && s[i] == '#' && s[i + 1] == '#' {
        if i + 2 < s.len() && is_blank_char(s[i + 2]) {
            let m = skip_blanks(s, i + 2);
            match spec_metafield(s, m) {
                Err(e) => Err(e),
                Ok((f, k)) => Ok((StepView::Field(f), k)),
            }
        } else {
            Err((ErrorKind::UnknownDirective, i))
        }
    } else {
        let j = ident_end(s, i);
        if j == i || !(j < s.len() && is_blank_char(s[j])) {
            Err((ErrorKind::UnknownDirective, i))
        } else {
            let word = s.subrange(i, j);
            let m = skip_blanks(s, j);
            if word == "tap"@ {
                match spec_tap(s, m) {
                    Err(e) => Err(e),
                    Ok((t, k)) => Ok((StepView::Directive(CommandView::Tap(t)), k)),
                }
            } else if word == "brew"@ {
                match spec_brew(s, m) {
                    Err(e) => Err(e),
                    Ok((b, k)) => Ok((StepView::Directive(CommandView::Brew(b)), k)),
                }
            } else {
                Err((ErrorKind::UnknownDirective, i))
            }
        }
    }
}

pub proof fn lemma_spec_dispatch_range(s: Seq<char>, i: int)
    requires
        0 <= i <= s.len(),
    ensures
        spec_dispatch(s, i) matches Ok((st, k)) ==> i < k <= s.len(),
{
    if i + 1 < s.len() && s[i] == '#' && s[i + 1] == '#' {
        if i + 2 < s.len() && is_blank_char(s[i + 2]) {
            lemma_skip_blanks_range(s, i + 2);
            let m = skip_blanks(s, i + 2);
            lemma_spec_metafield_range(s, m);
        }
    } else {
        lemma_ident_end_range(s, i);
        let j = ident_end(s, i);
        if j != i && j < s.len() && is_blank_char(s[j]) {
            lemma_skip_blanks_range(s, j);
            let m = skip_blanks(s, j);
            lemma_spec_tap_range(s, m);
            lemma_spec_brew_range(s, m);
        }
    }
}

/// Reference parse of the whole document from `i` on, with `desc` and `opt`
/// the pending metadata and `acc` the directives emitted so far. Leading
/// whitespace is trimmed; at end-of-input the accumulated document stands
/// and pending metadata with no following directive is discarded. A
/// metadata field merges into the pending state; a directive is emitted
/// with the pending state attached, which is then reset.
pub open spec fn spec_document(
    s: Seq<char>,
    i: int,
    desc: Seq<char>,
    opt: bool,
    acc: Seq<MetaView>,
) -> Result<Seq<MetaView>, (ErrorKind, int)>
    decreases s.len() - i,
{
    let j = skip_ws(s, i);
    if j >= s.len() {
        Ok(acc)
    } else {
        match spec_dispatch(s, j) {
            Err(e) => Err(e),
            Ok((st, k)) => {
                proof {
                    if 0 <= i {
                        lemma_skip_ws_range(s, i);
                        lemma_spec_dispatch_range(s, j);
                    }
                }
                match st {
                    StepView::Field(f) => {
                        let merged = if f is Some {
                            merge_field(desc, opt, f->0)
                        } else {
                            (desc, opt)
                        };
                        spec_document(s, k, merged.0, merged.1, acc)
                    },
                    StepView::Directive(c) => spec_document(
                        s,
                        k,
                        Seq::empty(),
                        false,
                        acc.push(MetaView { description: desc, optional: opt, command: c }),
                    ),
                }
            },
        }
    }
}

/// The top-level view of a parse: the document that the reference parser
/// assigns to the input, starting with empty pending metadata.
pub open spec fn spec_parse_document(s: Seq<char>) -> Result<Seq<MetaView>, (ErrorKind, int)> {
    spec_document(s, 0, Seq::empty(), false, Seq::empty())
}

/// Parsing is deterministic: the document is a function of the input text
/// alone, so two parses of equal inputs yield equal outcomes — and on
/// failure no document at all is produced, never a partial one.
pub proof fn lemma_parse_deterministic(s1: Seq<char>, s2: Seq<char>)
    requires
        s1 == s2,
    ensures
        spec_parse_document(s1) == spec_parse_document(s2),
{
}

/// Parse one top-level unit at `i`, a non-whitespace position.
fn parse_step(s: &str, i: usize) -> (r: Result<(Step, usize), ParseError>)
    requires
        i as int <= s@.len(),
    ensures
        ({
            let sp = spec_dispatch(s@, i as int);
            match r {
                Ok((st, k)) => sp == Ok::<(StepView, int), (ErrorKind, int)>((st@, k as int))
                    && i < k && k as int <= s@.len(),
                Err(e) => sp == Err::<(StepView, int), (ErrorKind, int)>((e.kind, e.pos as int)),
            }
        }),
{
    let n = s.unicode_len();
    if i < n && i + 1 < n && s.get_char(i) == '#' && s.get_char(i + 1) == '#' {
        let blank_follows = if i + 2 < n {
            let c = s.get_char(i + 2);
            c == ' ' || c == '\t'
        } else {
            false
        };
        if blank_follows {
            let m = skip_blank_chars(s, i + 2);
            match Metafield::parse(s, m) {
                Err(e) => Err(e),
                Ok((f, k)) => {
                    proof {
                        lemma_skip_blanks_range(s@, i as int + 2);
                    }
                    Ok((Step::Field(f), k))
                },
            }
        } else {
            Err(ParseError { kind: ErrorKind::UnknownDirective, pos: i })
        }
    } else {
        let j = ident_end_at(s, i);
        let blank_follows = if j < n {
            let c = s.get_char(j);
            c == ' ' || c == '\t'
        } else {
            false
        };
        if j == i || !blank_follows {
            return Err(ParseError { kind: ErrorKind::UnknownDirective, pos: i });
        }
        let m = skip_blank_chars(s, j);
        if range_is_word(s, i, j, "tap") {
            match TapCommand::parse(s, m) {
                Err(e) => Err(e),
                Ok((t, k)) => Ok((Step::Directive(Command::Tap(t)), k)),
            }
        } else if range_is_word(s, i, j, "brew") {
            match BrewCommand::parse(s, m) {
                Err(e) => Err(e),
                Ok((b, k)) => Ok((Step::Directive(Command::Brew(b)), k)),
            }
        } else {
            Err(ParseError { kind: ErrorKind::UnknownDirective, pos: i })
        }
    }
}

/// Appending one annotated directive appends its view to the deep view.
proof fn lemma_meta_push(pre: Seq<MetaView>, v: Vec<MetaCommand>, post: Vec<MetaCommand>, x: MetaCommand)
    requires
        pre == v.deep_view(),
        post@ == v@.push(x),
    ensures
        post.deep_view() == pre.push(x@),
{
    assert(post.deep_view() =~= pre.push(x@));
}

/// Parse a whole manifest: directives in source order, each annotated with
/// the metadata lines immediately before it. The document is exactly what
/// the reference parser assigns to the input; on failure the error carries
/// the offending position and no document is produced.
pub fn parse_command(input: &str) -> (r: Result<Vec<MetaCommand>, ParseError>)
    ensures
        ({
            let sp = spec_parse_document(input@);
            match r {
                Ok(doc) => sp == Ok::<Seq<MetaView>, (ErrorKind, int)>(doc.deep_view()),
                Err(e) => sp == Err::<Seq<MetaView>, (ErrorKind, int)>((e.kind, e.pos as int)),
            }
        }),
{
    let n = input.unicode_len();
    let mut i: usize = 0;
    let mut desc: String = String::new();
    let mut opt: bool = false;
    let mut out: Vec<MetaCommand> = Vec::new();
    proof {
        assert(out.deep_view() =~= Seq::<MetaView>::empty());
    }
    loop
        invariant
            n == input@.len(),
            i <= n,
            spec_parse_document(input@) == spec_document(
                input@,
                i as int,
                desc@,
                opt,
                out.deep_view(),
            ),
        decreases n - i,
    {
        let j = skip_ws_chars(input, i);
        if j >= n {
            return Ok(out);
        }
        match parse_step(input, j) {
            Err(e) => {
                return Err(e);
            },
            Ok((st, k)) => {
                match st {
                    Step::Field(f) => {
                        match f {
                            Some(Metafield::Description(d)) => {
                                desc = d;
                            },
                            Some(Metafield::Optional) => {
                                opt = true;
                            },
                            None => {},
                        }
                        i = k;
                    },
                    Step::Directive(c) => {
                        let ghost pre = out.deep_view();
                        let ghost prev = out;
                        let item = MetaCommand { description: desc, optional: opt, command: c };
                        let ghost itemg = item;
                        out.push(item);
                        proof {
                            lemma_meta_push(pre, prev, out, itemg);
                        }
                        desc = String::new();
                        opt = false;
                        i = k;
                    },
                }
            },
        }
    }
}


/// Directives are only ever appended: parsing with entries already
/// accumulated yields those entries followed by exactly the entries parsed
/// from an empty accumulator. The document therefore keeps source order,
/// and a failure is the same failure whatever was already emitted.
pub proof fn lemma_document_accumulate(
    s: Seq<char>,
    i: int,
    desc: Seq<char>,
    opt: bool,
    acc: Seq<MetaView>,
)
    requires
        0 <= i <= s.len(),
    ensures
        ({
            match (spec_document(s, i, desc, opt, acc), spec_document(
                s,
                i,
                desc,
                opt,
                Seq::empty(),
            )) {
                (Ok(r), Ok(r0)) => r == acc + r0,
                (Err(e), Err(e0)) => e == e0,
                _ => false,
            }
        }),
    decreases s.len() - i,
{
    lemma_skip_ws_range(s, i);
    let j = skip_ws(s, i);
    if j >= s.len() {
        assert(acc + Seq::<MetaView>::empty() =~= acc);
    } else {
        lemma_spec_dispatch_range(s, j);
        match spec_dispatch(s, j) {
            Err(e) => {},
            Ok((st, k)) => {
                match st {
                    StepView::Field(f) => {
                        let merged = if f is Some {
                            merge_field(desc, opt, f->0)
                        } else {
                            (desc, opt)
                        };
                        lemma_document_accumulate(s, k, merged.0, merged.1, acc);
                    },
                    StepView::Directive(c) => {
                        let m = MetaView { description: desc, optional: opt, command: c };
                        lemma_document_accumulate(s, k, Seq::empty(), false, acc.push(m));
                        lemma_document_accumulate(s, k, Seq::empty(), false, Seq::empty().push(m));
                        match (spec_document(s, k, Seq::empty(), false, Seq::empty()),
                            spec_document(s, k, Seq::empty(), false, acc.push(m))) {
                            (Ok(t), Ok(r)) => {
                                assert(r == acc.push(m) + t);
                                assert(acc.push(m) + t =~= acc + (Seq::empty().push(m) + t));
                            },
                            _ => {},
                        }
                    },
                }
            },
        }
    }
}

/// Metadata attaches to at most one directive, the next one parsed: the
/// pending description and optional flag influence only the annotation of
/// the first directive that follows. Every later entry, and whether the
/// parse succeeds at all, is the same whatever metadata is pending — so
/// pending metadata at end-of-input, with no following directive, leaves no
/// trace in the document.
pub proof fn lemma_pending_attaches_to_next_only(
    s: Seq<char>,
    i: int,
    d1: Seq<char>,
    o1: bool,
    d2: Seq<char>,
    o2: bool,
)
    requires
        0 <= i <= s.len(),
    ensures
        ({
            match (spec_document(s, i, d1, o1, Seq::empty()), spec_document(
                s,
                i,
                d2,
                o2,
                Seq::empty(),
            )) {
                (Ok(r1), Ok(r2)) => r1.len() == r2.len() && (forall|k: int|
                    1 <= k < r1.len() ==> r1[k] == r2[k]) && (r1.len() > 0 ==> r1[0].command
                    == r2[0].command),
                (Err(e1), Err(e2)) => e1 == e2,
                _ => false,
            }
        }),
    decreases s.len() - i,
{
    lemma_skip_ws_range(s, i);
    let j = skip_ws(s, i);
    if j < s.len() {
        lemma_spec_dispatch_range(s, j);
        match spec_dispatch(s, j) {
            Err(e) => {},
            Ok((st, k)) => {
                match st {
                    StepView::Field(f) => {
                        let m1 = if f is Some {
                            merge_field(d1, o1, f->0)
                        } else {
                            (d1, o1)
                        };
                        let m2 = if f is Some {
                            merge_field(d2, o2, f->0)
                        } else {
                            (d2, o2)
                        };
                        lemma_pending_attaches_to_next_only(s, k, m1.0, m1.1, m2.0, m2.1);
                    },
                    StepView::Directive(c) => {
                        let e1 = MetaView { description: d1, optional: o1, command: c };
                        let e2 = MetaView { description: d2, optional: o2, command: c };
                        lemma_document_accumulate(s, k, Seq::empty(), false, Seq::empty().push(e1));
                        lemma_document_accumulate(s, k, Seq::empty(), false, Seq::empty().push(e2));
                        match (spec_document(s, k, Seq::empty(), false, Seq::empty()), (
                            spec_document(s, k, Seq::empty(), false, Seq::empty().push(e1)),
                            spec_document(s, k, Seq::empty(), false, Seq::empty().push(e2)),
                        )) {
                            (Ok(t), (Ok(r1), Ok(r2))) => {
                                assert(r1 == Seq::empty().push(e1) + t);
                                assert(r2 == Seq::empty().push(e2) + t);
                                assert(r1.len() == r2.len());
                                assert(forall|k2: int| 1 <= k2 < r1.len() ==> r1[k2] == r2[k2]);
                                assert(r1[0].command == r2[0].command);
                            },
                            _ => {},
                        }
                    },
                }
            },
        }
    }
}

} // verus!

