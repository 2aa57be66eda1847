//! The command tree: tagged nodes for simple commands, pipelines,
//! conditional and sequential chains, background marks, and redirect
//! descriptors; and its serialization back to command-line text.

use vstd::prelude::*;

use crate::text::append_str;
use crate::text::push_char;

verus! {

/// The direction of an I/O redirection.
#[derive(Debug, Clone, Copy, PartialEq, Eq, Structural)]
pub enum RedirectKind {
    /// `>`: write the command's output to the target, truncating.
    Out,
    /// `<`: read the command's input from the target.
    In,
    /// `>>`: append the command's output to the target.
    Append,
}

/// The operator text of a redirection kind.
pub open spec fn spec_redirect_symbol(k: RedirectKind) -> Seq<char> {
    match k {
        RedirectKind::Out => ">"@,
        RedirectKind::In => "<"@,
        RedirectKind::Append => ">>"@,
    }
}

impl RedirectKind {
    /// The operator text: `>`, `<` or `>>`.
    pub fn symbol(&self) -> (r: &'static str)
        ensures
            r@ == spec_redirect_symbol(*self),
    {
        match self {
            RedirectKind::Out => ">",
            RedirectKind::In => "<",
            RedirectKind::Append => ">>",
        }
    }
}

/// One redirection: its direction and the target path.
#[derive(Debug, Clone, PartialEq)]
pub struct Redirect {
    pub kind: RedirectKind,
    pub target: String,
}

/// Mathematical image of a `Redirect`.
#[verifier::ext_equal]
pub struct RedirectV {
    pub kind: RedirectKind,
    pub target: Seq<char>,
}

impl View for Redirect {
    type V = RedirectV;

    open spec fn view(&self) -> RedirectV {
        RedirectV { kind: self.kind, target: self.target@ }
    }
}

impl Redirect {
    pub fn new(kind: RedirectKind, target: String) -> (r: Redirect)
        ensures
            r@ == (RedirectV { kind, target: target@ }),
    {
        Redirect { kind, target }
    }
}

/// A parsed command tree.
#[derive(Debug, PartialEq)]
pub enum Command {
    /// A single command: its name, arguments in order, and redirects in
    /// order.
    Simple { name: String, args: Vec<String>, redirects: Vec<Redirect> },
    /// Two or more commands connected by `|`.
    Pipeline(Vec<Command>),
    /// `left && right`: run `right` only when `left` succeeds.
    And(Box<Command>, Box<Command>),
    /// `left || right`: run `right` only when `left` fails.
    Or(Box<Command>, Box<Command>),
    /// Two or more commands separated by `;`, run in order.
    Sequence(Vec<Command>),
    /// A command marked with a trailing `&`.
    Background(Box<Command>),
    /// A blank line.
    Empty,
}

/// Mathematical image of a `Command`.
#[verifier::ext_equal]
pub enum CommandV {
    Simple { name: Seq<char>, args: Seq<Seq<char>>, redirects: Seq<RedirectV> },
    Pipeline(Seq<CommandV>),
    And(Box<CommandV>, Box<CommandV>),
    Or(Box<CommandV>, Box<CommandV>),
    Sequence(Seq<CommandV>),
    Background(Box<CommandV>),
    Empty,
}

impl View for Command {
    type V = CommandV;

    open spec fn view(&self) -> CommandV
        decreases self,
    {
        match self {
            Command::Simple { name, args, redirects } => CommandV::Simple {
                name: name@,
                args: args.deep_view(),
                redirects: Seq::new(redirects@.len(), |i: int| redirects@[i]@),
            },
            Command::Pipeline(cmds) => CommandV::Pipeline(view_cmds(cmds@)),
            Command::And(l, r) => CommandV::And(Box::new((**l)@), Box::new((**r)@)),
            Command::Or(l, r) => CommandV::Or(Box::new((**l)@), Box::new((**r)@)),
            Command::Sequence(cmds) => CommandV::Sequence(view_cmds(cmds@)),
            Command::Background(c) => CommandV::Background(Box::new((**c)@)),
            Command::Empty => CommandV::Empty,
        }
    }
}

/// The views of a sequence of commands, element by element.
pub open spec fn view_cmds(cmds: Seq<Command>) -> Seq<CommandV>
    decreases cmds,
{
    if cmds.len() == 0 {
        Seq::empty()
    } else {
        seq![cmds[0]@] + view_cmds(cmds.drop_first())
    }
}

pub broadcast proof fn lemma_view_cmds(cmds: Seq<Command>)
    ensures
        (#[trigger] view_cmds(cmds)).len() == cmds.len(),
        forall|i: int| 0 <= i < cmds.len() ==> view_cmds(cmds)[i] == cmds[i]@,
    decreases cmds,
{
    if cmds.len() > 0 {
        lemma_view_cmds(cmds.drop_first());
        assert(view_cmds(cmds) == seq![cmds[0]@] + view_cmds(cmds.drop_first()));
        assert(view_cmds(cmds).len() == cmds.len());
        assert forall|i: int| 0 <= i < cmds.len() implies view_cmds(cmds)[i] == cmds[i]@ by {
            if i > 0 {
                assert(view_cmds(cmds)[i] == view_cmds(cmds.drop_first())[i - 1]);
                assert(cmds.drop_first()[i - 1] == cmds[i]);
            }
        }
    }
}

/// Whether every redirect names a non-empty target.
pub open spec fn wf_redirects(redirects: Seq<RedirectV>) -> bool {
    forall|i: int| 0 <= i < redirects.len() ==> (#[trigger] redirects[i]).target.len() > 0
}

/// The structural invariants of a parsed command tree: pipeline and
/// sequence lists hold at least two members (a singleton collapses to
/// the bare member), chain and background nodes wrap fully-formed
/// sub-commands, and every redirect target is non-empty.
pub open spec fn wf_cmd(c: CommandV) -> bool
    decreases c,
{
    match c {
        CommandV::Simple { name, args, redirects } => wf_redirects(redirects),
        CommandV::Pipeline(cmds) => cmds.len() >= 2 && wf_cmds(cmds),
        CommandV::And(l, r) => wf_cmd(*l) && wf_cmd(*r),
        CommandV::Or(l, r) => wf_cmd(*l) && wf_cmd(*r),
        CommandV::Sequence(cmds) => cmds.len() >= 2 && wf_cmds(cmds),
        CommandV::Background(inner) => wf_cmd(*inner),
        CommandV::Empty => true,
    }
}

/// Whether every member of a command list satisfies the structural
/// invariants.
pub open spec fn wf_cmds(cmds: Seq<CommandV>) -> bool
    decreases cmds,
{
    if cmds.len() == 0 {
        true
    } else {
        wf_cmds(cmds.drop_last()) && wf_cmd(cmds.last())
    }
}

/// The serialized text of the arguments, each preceded by one space.
pub open spec fn spec_args_text(args: Seq<Seq<char>>) -> Seq<char>
    decreases args,
{
    if args.len() == 0 {
        Seq::empty()
    } else {
        spec_args_text(args.drop_last()) + seq![' '] + args.last()
    }
}

/// The serialized text of the redirects, each as ` op target`.
pub open spec fn spec_redirs_text(redirects: Seq<RedirectV>) -> Seq<char>
    decreases redirects,
{
    if redirects.len() == 0 {
        Seq::empty()
    } else {
        spec_redirs_text(redirects.drop_last()) + seq![' '] + spec_redirect_symbol(
            redirects.last().kind,
        ) + seq![' '] + redirects.last().target
    }
}

/// The members' texts joined with the separator.
pub open spec fn spec_join_texts(cmds: Seq<CommandV>, sep: Seq<char>) -> Seq<char>
    decreases cmds,
{
    if cmds.len() == 0 {
        Seq::empty()
    } else if cmds.len() == 1 {
        spec_cmd_text(cmds[0])
    } else {
        spec_join_texts(cmds.drop_last(), sep) + sep + spec_cmd_text(cmds.last())
    }
}

/// The command-line text a command tree serializes back to: arguments
/// separated by single spaces, pipeline members joined with ` | `,
/// chains with ` && `, ` || ` and ` ; `, a background mark as a
/// trailing ` &`, and the empty command as empty text.
pub open spec fn spec_cmd_text(c: CommandV) -> Seq<char>
    decreases c,
{
    match c {
        CommandV::Simple { name, args, redirects } => name + spec_args_text(args)
            + spec_redirs_text(redirects),
        CommandV::Pipeline(cmds) => spec_join_texts(cmds, " | "@),
        CommandV::And(l, r) => spec_cmd_text(*l) + " && "@ + spec_cmd_text(*r),
        CommandV::Or(l, r) => spec_cmd_text(*l) + " || "@ + spec_cmd_text(*r),
        CommandV::Sequence(cmds) => spec_join_texts(cmds, " ; "@),
        CommandV::Background(inner) => spec_cmd_text(*inner) + " &"@,
        CommandV::Empty => Seq::empty(),
    }
}

impl Command {
    /// Serializes the tree back to one line of command text.
    #[verifier::loop_isolation(false)]
    pub fn to_text(&self) -> (r: String)
        ensures
            r@ == spec_cmd_text(self@),
        decreases self,
    {
        broadcast use lemma_view_cmds;

        match self {
            Command::Simple { name, args, redirects } => {
                let mut r = String::new();
                append_str(&mut r, name.as_str());
                let mut i: usize = 0;
                while i < args.len()
                    invariant
                        i <= args@.len(),
                        r@ == name@ + spec_args_text(args.deep_view().take(i as int)),
                    decreases args@.len() - i,
                {
                    push_char(&mut r, ' ');
                    append_str(&mut r, args[i].as_str());
                    proof {
                        let dv = args.deep_view();
                        assert(dv.take(i + 1).drop_last() =~= dv.take(i as int));
                        assert(dv.take(i + 1).last() == dv[i as int]);
                        assert(spec_args_text(dv.take(i + 1)) == spec_args_text(dv.take(i as int))
                            + seq![' '] + dv[i as int]);
                        assert(name@ + spec_args_text(dv.take(i as int)) + seq![' '] + dv[i as int]
                            =~= (name@ + spec_args_text(dv.take(i as int))).push(' ')
                            + args@[i as int]@);
                    }
                    i = i + 1;
                }
                proof {
                    assert(args.deep_view().take(args@.len() as int) =~= args.deep_view());
                }
                let ghost rv = Seq::new(redirects@.len(), |k: int| redirects@[k]@);
                let mut j: usize = 0;
                while j < redirects.len()
                    invariant
                        j <= redirects@.len(),
                        r@ == name@ + spec_args_text(args.deep_view()) + spec_redirs_text(
                            rv.take(j as int),
                        ),
                    decreases redirects@.len() - j,
                {
                    let ghost before = r@;
                    push_char(&mut r, ' ');
                    append_str(&mut r, redirects[j].kind.symbol());
                    push_char(&mut r, ' ');
                    append_str(&mut r, redirects[j].target.as_str());
                    proof {
                        assert(rv.take(j + 1).drop_last() =~= rv.take(j as int));
                        assert(rv.take(j + 1).last() == rv[j as int]);
                        assert(spec_redirs_text(rv.take(j + 1)) == spec_redirs_text(
                            rv.take(j as int),
                        ) + seq![' '] + spec_redirect_symbol(rv[j as int].kind) + seq![' ']
                            + rv[j as int].target);
                        assert(r@ =~= before + seq![' '] + spec_redirect_symbol(rv[j as int].kind)
                            + seq![' '] + rv[j as int].target);
                    }
                    j = j + 1;
                }
                proof {
                    assert(rv.take(redirects@.len() as int) =~= rv);
                }
                r
            },
            Command::Pipeline(cmds) => join_cmd_texts(cmds, " | "),
            Command::And(l, r) => {
                let mut t = l.to_text();
                append_str(&mut t, " && ");
                let rt = r.to_text();
                append_str(&mut t, rt.as_str());
                t
            },
            Command::Or(l, r) => {
                let mut t = l.to_text();
                append_str(&mut t, " || ");
                let rt = r.to_text();
                append_str(&mut t, rt.as_str());
                t
            },
            Command::Sequence(cmds) => join_cmd_texts(cmds, " ; "),
            Command::Background(inner) => {
                let mut t = inner.to_text();
                append_str(&mut t, " &");
                t
            },
            Command::Empty => String::new(),
        }
    }
}

/// Serializes the members and joins them with the separator.
#[verifier::loop_isolation(false)]
fn join_cmd_texts(cmds: &Vec<Command>, sep: &str) -> (r: String)
    ensures
        r@ == spec_join_texts(view_cmds(cmds@), sep@),
    decreases cmds,
{
    broadcast use lemma_view_cmds;

    let ghost vs = view_cmds(cmds@);
    let mut r = String::new();
    let mut i: usize = 0;
    while i < cmds.len()
        invariant
            i <= cmds@.len(),
            r@ == spec_join_texts(vs.take(i as int), sep@),
        decreases cmds@.len() - i,
    {
        let ghost before = r@;
        if i > 0 {
            append_str(&mut r, sep);
        }
        proof {
            assert(decreases_to!(cmds => cmds@));
            assert(decreases_to!(cmds@ => cmds@[i as int]));
        }
        let t = cmds[i].to_text();
        append_str(&mut r, t.as_str());
        proof {
            assert(vs.take(i + 1).drop_last() =~= vs.take(i as int));
            assert(vs.take(i + 1).last() == vs[i as int]);
            if i == 0 {
                assert(spec_join_texts(vs.take(1), sep@) == spec_cmd_text(vs[0]));
                assert(before + t@ =~= spec_cmd_text(vs[0]));
            } else {
                assert(spec_join_texts(vs.take(i + 1), sep@) == spec_join_texts(
                    vs.take(i as int),
                    sep@,
                ) + sep@ + spec_cmd_text(vs[i as int]));
                assert(r@ =~= before + sep@ + spec_cmd_text(vs[i as int]));
            }
        }
        i = i + 1;
    }
    proof {
        assert(vs.take(cmds@.len() as int) =~= vs);
    }
    r
}

/// A simple command of bare words serializes to the words joined by
/// single spaces: the name, then each argument after one space.
pub proof fn lemma_words_text(ws: Seq<Seq<char>>)
    requires
        ws.len() >= 1,
    ensures
        spec_cmd_text(
            CommandV::Simple {
                name: ws[0],
                args: ws.drop_first(),
                redirects: Seq::empty(),
            },
        ) == crate::text::spec_join_with(ws, " "@),
{
    assert(spec_redirs_text(Seq::empty()) == Seq::<char>::empty());
    lemma_args_text_join(ws);
    assert(ws[0] + spec_args_text(ws.drop_first()) + Seq::<char>::empty() =~= ws[0]
        + spec_args_text(ws.drop_first()));
    assert(ws[0] + spec_args_text(ws.drop_first()) + Seq::<char>::empty() =~= ws[0]
        + spec_args_text(ws.drop_first()));
}

proof fn lemma_args_text_join(ws: Seq<Seq<char>>)
    requires
        ws.len() >= 1,
    ensures
        ws[0] + spec_args_text(ws.drop_first()) == crate::text::spec_join_with(ws, " "@),
    decreases ws.len(),
{
    reveal_strlit(" ");
    assert(" "@ =~= seq![' ']);
    if ws.len() == 1 {
        assert(ws.drop_first() =~= Seq::<Seq<char>>::empty());
        assert(ws[0] + spec_args_text(Seq::empty()) =~= ws[0]);
        assert(crate::text::spec_join_with(ws, " "@) == ws[0]);
    } else {
        lemma_args_text_join(ws.drop_last());
        assert(ws.drop_last().len() >= 1);
        assert(ws.drop_last()[0] == ws[0]);
        assert(ws.drop_last().drop_first() =~= ws.drop_first().drop_last());
        assert(ws.drop_first().len() >= 1);
        assert(spec_args_text(ws.drop_first()) == spec_args_text(ws.drop_first().drop_last())
            + seq![' '] + ws.drop_first().last());
        assert(crate::text::spec_join_with(ws, " "@) == crate::text::spec_join_with(
            ws.drop_last(),
            " "@,
        ) + " "@ + ws.last());
        assert(ws.drop_first().last() == ws.last());
        assert(ws[0] + (spec_args_text(ws.drop_first().drop_last()) + seq![' ']
            + ws.last()) =~= (ws[0] + spec_args_text(ws.drop_first().drop_last())) + " "@
            + ws.last());
    }
}

} // verus!
