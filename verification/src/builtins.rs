//! The built-in command catalog: the alias table from command names,
//! Arabic and English, to operations, and the parts of the builtins
//! that compute rather than touch the machine — echo, search over
//! piped input, the version text, and the numeric and owner-spec
//! parsing behind permission and ownership changes.

use vstd::prelude::*;

use crate::arabic::shape_arabic;
use crate::arabic::spec_shape_arabic;
use crate::text::append_str;
use crate::text::collect_range;
use crate::text::contains_sub;
use crate::text::find_char;
use crate::text::join_with;
use crate::text::lemma_find_char_bounds;
use crate::text::push_char;
use crate::text::spec_contains_sub;
use crate::text::spec_find_char;
use crate::text::spec_join_with;
use crate::text::spec_lines;
use crate::text::split_lines;
use crate::text::str_chars;
use crate::text::str_eq;
use crate::text::texts_view;

verus! {

/// The built-in operations, each reachable under Arabic and English
/// names.
#[derive(Debug, Clone, Copy, PartialEq, Eq, Structural)]
pub enum Builtin {
    Exit,
    Help,
    Echo,
    Clear,
    Pwd,
    Cd,
    Ls,
    Cat,
    Mkdir,
    Touch,
    Rm,
    Cp,
    Mv,
    Version,
    Search,
    Chmod,
    Chown,
    Ln,
}

/// The alias table: which built-in operation, if any, a command name
/// denotes.
pub open spec fn spec_builtin_of(s: Seq<char>) -> Option<Builtin> {
    if s == "خروج"@ || s == "exit"@ || s == "quit"@ {
        Some(Builtin::Exit)
    } else if s == "مساعدة"@ || s == "help"@ || s == "?"@ {
        Some(Builtin::Help)
    } else if s == "اطبع"@ || s == "echo"@ {
        Some(Builtin::Echo)
    } else if s == "امسح"@ || s == "clear"@ || s == "cls"@ {
        Some(Builtin::Clear)
    } else if s == "اين"@ || s == "pwd"@ {
        Some(Builtin::Pwd)
    } else if s == "انتقل"@ || s == "cd"@ {
        Some(Builtin::Cd)
    } else if s == "اعرض"@ || s == "ls"@ || s == "dir"@ {
        Some(Builtin::Ls)
    } else if s == "اقرأ"@ || s == "cat"@ {
        Some(Builtin::Cat)
    } else if s == "انشئ"@ || s == "mkdir"@ {
        Some(Builtin::Mkdir)
    } else if s == "المس"@ || s == "touch"@ {
        Some(Builtin::Touch)
    } else if s == "احذف"@ || s == "rm"@ {
        Some(Builtin::Rm)
    } else if s == "انسخ"@ || s == "cp"@ {
        Some(Builtin::Cp)
    } else if s == "انقل"@ || s == "mv"@ {
        Some(Builtin::Mv)
    } else if s == "اصدار"@ || s == "version"@ {
        Some(Builtin::Version)
    } else if s == "ابحث"@ || s == "grep"@ || s == "search"@ {
        Some(Builtin::Search)
    } else if s == "صلاحيات"@ || s == "chmod"@ {
        Some(Builtin::Chmod)
    } else if s == "مالك"@ || s == "chown"@ {
        Some(Builtin::Chown)
    } else if s == "رابط"@ || s == "ln"@ || s == "link"@ {
        Some(Builtin::Ln)
    } else {
        None
    }
}

/// Looks a command name up in the alias table.
pub fn builtin_of(name: &str) -> (r: Option<Builtin>)
    ensures
        r == spec_builtin_of(name@),
{
    if str_eq(name, "خروج") || str_eq(name, "exit") || str_eq(name, "quit") {
        Some(Builtin::Exit)
    } else if str_eq(name, "مساعدة") || str_eq(name, "help") || str_eq(name, "?") {
        Some(Builtin::Help)
    } else if str_eq(name, "اطبع") || str_eq(name, "echo") {
        Some(Builtin::Echo)
    } else if str_eq(name, "امسح") || str_eq(name, "clear") || str_eq(name, "cls") {
        Some(Builtin::Clear)
    } else if str_eq(name, "اين") || str_eq(name, "pwd") {
        Some(Builtin::Pwd)
    } else if str_eq(name, "انتقل") || str_eq(name, "cd") {
        Some(Builtin::Cd)
    } else if str_eq(name, "اعرض") || str_eq(name, "ls") || str_eq(name, "dir") {
        Some(Builtin::Ls)
    } else if str_eq(name, "اقرأ") || str_eq(name, "cat") {
        Some(Builtin::Cat)
    } else if str_eq(name, "انشئ") || str_eq(name, "mkdir") {
        Some(Builtin::Mkdir)
    } else if str_eq(name, "المس") || str_eq(name, "touch") {
        Some(Builtin::Touch)
    } else if str_eq(name, "احذف") || str_eq(name, "rm") {
        Some(Builtin::Rm)
    } else if str_eq(name, "انسخ") || str_eq(name, "cp") {
        Some(Builtin::Cp)
    } else if str_eq(name, "انقل") || str_eq(name, "mv") {
        Some(Builtin::Mv)
    } else if str_eq(name, "اصدار") || str_eq(name, "version") {
        Some(Builtin::Version)
    } else if str_eq(name, "ابحث") || str_eq(name, "grep") || str_eq(name, "search") {
        Some(Builtin::Search)
    } else if str_eq(name, "صلاحيات") || str_eq(name, "chmod") {
        Some(Builtin::Chmod)
    } else if str_eq(name, "مالك") || str_eq(name, "chown") {
        Some(Builtin::Chown)
    } else if str_eq(name, "رابط") || str_eq(name, "ln") || str_eq(name, "link") {
        Some(Builtin::Ln)
    } else {
        None
    }
}

/// The exit command stands alone: a name resolves to the
/// session-ending operation exactly when it is one of the three exit
/// aliases, so no other recognized name collides with it.
pub proof fn lemma_exit_alias_unique(s: Seq<char>)
    ensures
        spec_builtin_of(s) == Some(Builtin::Exit) <==> (s == "خروج"@ || s == "exit"@ || s
            == "quit"@),
{
}

/// What echo prints: its arguments joined by single spaces with a
/// final newline, or, without arguments, the piped input or nothing.
pub open spec fn spec_echo_text(args: Seq<Seq<char>>, input: Option<Seq<char>>) -> Seq<char> {
    if args.len() == 0 {
        match input {
            Some(i) => i,
            None => Seq::empty(),
        }
    } else {
        spec_join_with(args, " "@).push('\n')
    }
}

/// The echo builtin: prints its arguments, or passes piped input
/// through when it has none.
pub fn echo_text(args: &Vec<String>, input: Option<&String>) -> (r: String)
    ensures
        r@ == spec_echo_text(texts_view(args@), crate::text::opt_text_ref(input)),
{
    if args.len() == 0 {
        match input {
            Some(i) => (*i).clone(),
            None => String::new(),
        }
    } else {
        let mut r = join_with(args, " ");
        push_char(&mut r, '\n');
        r
    }
}

/// The lines among `lines` that hold the pattern, in order.
pub open spec fn spec_matching_lines(lines: Seq<Seq<char>>, pattern: Seq<char>) -> Seq<Seq<char>>
    decreases lines,
{
    if lines.len() == 0 {
        Seq::empty()
    } else {
        spec_matching_lines(lines.drop_last(), pattern) + (if spec_contains_sub(
            lines.last(),
            pattern,
        ) {
            seq![lines.last()]
        } else {
            Seq::empty()
        })
    }
}

/// What searching piped input prints: the matching lines joined by
/// newlines with a final newline, or nothing when no line matches.
pub open spec fn spec_search_text(pattern: Seq<char>, input: Seq<char>) -> Seq<char> {
    let ms = spec_matching_lines(spec_lines(input), pattern);
    if ms.len() == 0 {
        Seq::empty()
    } else {
        spec_join_with(ms, "\n"@).push('\n')
    }
}

/// The search builtin over piped input: keeps the lines that hold the
/// pattern.
#[verifier::loop_isolation(false)]
pub fn search_text(pattern: &str, input: &str) -> (r: String)
    ensures
        r@ == spec_search_text(pattern@, input@),
{
    let pat = str_chars(pattern);
    let lines = split_lines(input);
    let ghost vs = spec_lines(input@);
    let mut matching: Vec<String> = Vec::new();
    let mut i: usize = 0;
    proof {
        assert(texts_view(matching@) =~= spec_matching_lines(vs.take(0), pattern@));
    }
    while i < lines.len()
        invariant
            i <= lines@.len(),
            texts_view(lines@) == vs,
            pat@ == pattern@,
            texts_view(matching@) == spec_matching_lines(vs.take(i as int), pattern@),
        decreases lines@.len() - i,
    {
        let ghost before = matching@;
        let line_chars = str_chars(lines[i].as_str());
        if contains_sub(&line_chars, &pat) {
            matching.push(lines[i].clone());
        }
        proof {
            assert(vs.take(i + 1).drop_last() =~= vs.take(i as int));
            assert(vs.take(i + 1).last() == vs[i as int]);
            if spec_contains_sub(vs[i as int], pattern@) {
                assert(texts_view(matching@) =~= texts_view(before) + seq![vs[i as int]]);
            } else {
                assert(texts_view(matching@) =~= texts_view(before) + Seq::<Seq<char>>::empty());
            }
        }
        i = i + 1;
    }
    proof {
        assert(vs.take(lines@.len() as int) =~= vs);
    }
    if matching.len() == 0 {
        return String::new();
    }
    let mut r = join_with(&matching, "\n");
    push_char(&mut r, '\n');
    r
}

/// One search match as the file search prints it, with its file name:
/// `file:line:text`.
pub fn format_match_with_file(file: &str, lineno: u64, line: &str) -> (r: String)
    ensures
        r@ == file@ + ":"@ + crate::text::spec_nat_text(lineno as int) + ":"@ + line@ + "\n"@,
{
    let mut r = String::new();
    append_str(&mut r, file);
    append_str(&mut r, ":");
    let n = crate::text::nat_text(lineno);
    append_str(&mut r, n.as_str());
    append_str(&mut r, ":");
    append_str(&mut r, line);
    append_str(&mut r, "\n");
    r
}

/// One search match as the single-file search prints it: `line:text`.
pub fn format_match(lineno: u64, line: &str) -> (r: String)
    ensures
        r@ == crate::text::spec_nat_text(lineno as int) + ":"@ + line@ + "\n"@,
{
    let mut r = crate::text::nat_text(lineno);
    append_str(&mut r, ":");
    append_str(&mut r, line);
    append_str(&mut r, "\n");
    r
}

/// The version banner.
pub open spec fn spec_version_text() -> Seq<char> {
    spec_shape_arabic("محيط (Ocean) v0.1.0"@) + "\n"@ + spec_shape_arabic(
        "مشروع ترقيم - Tarqeem Project"@,
    ) + "\nhttps://github.com/osama1998H/ocean\n"@
}

/// The version banner, with its Arabic lines shaped.
pub fn version_text() -> (r: String)
    ensures
        r@ == spec_version_text(),
{
    let mut r = shape_arabic("محيط (Ocean) v0.1.0");
    append_str(&mut r, "\n");
    let second = shape_arabic("مشروع ترقيم - Tarqeem Project");
    append_str(&mut r, second.as_str());
    append_str(&mut r, "\nhttps://github.com/osama1998H/ocean\n");
    r
}

/// The value of a decimal or octal digit, or a negative marker for
/// anything else.
pub open spec fn spec_digit_val(c: char) -> int {
    if c == '0' {
        0
    } else if c == '1' {
        1
    } else if c == '2' {
        2
    } else if c == '3' {
        3
    } else if c == '4' {
        4
    } else if c == '5' {
        5
    } else if c == '6' {
        6
    } else if c == '7' {
        7
    } else if c == '8' {
        8
    } else if c == '9' {
        9
    } else {
        -1
    }
}

/// Whether every character is a digit below the base.
pub open spec fn spec_all_digits(s: Seq<char>, base: int) -> bool {
    forall|i: int| 0 <= i < s.len() ==> 0 <= spec_digit_val(#[trigger] s[i]) < base
}

/// The value of a digit string in the given base.
pub open spec fn spec_radix_val(s: Seq<char>, base: int) -> int
    decreases s,
{
    if s.len() == 0 {
        0
    } else {
        spec_radix_val(s.drop_last(), base) * base + spec_digit_val(s.last())
    }
}

/// A number as `u32::from_str_radix` reads it: an optional plus sign,
/// then digits of the base, rejected on any other character or on
/// overflow.
pub open spec fn spec_parse_u32(s: Seq<char>, base: int) -> Option<u32> {
    let t = if s.len() > 0 && s[0] == '+' {
        s.drop_first()
    } else {
        s
    };
    if t.len() > 0 && spec_all_digits(t, base) && spec_radix_val(t, base) <= u32::MAX {
        Some(spec_radix_val(t, base) as u32)
    } else {
        None
    }
}

fn digit_val(c: char) -> (r: i8)
    ensures
        r as int == spec_digit_val(c),
{
    match c {
        '0' => 0,
        '1' => 1,
        '2' => 2,
        '3' => 3,
        '4' => 4,
        '5' => 5,
        '6' => 6,
        '7' => 7,
        '8' => 8,
        '9' => 9,
        _ => -1,
    }
}

/// Reads an unsigned number in the given base, as
/// `u32::from_str_radix` would: used for octal permission modes and
/// numeric owner ids.
#[verifier::loop_isolation(false)]
pub fn parse_u32_radix(s: &str, base: u32) -> (r: Option<u32>)
    requires
        base == 8 || base == 10,
    ensures
        r == spec_parse_u32(s@, base as int),
{
    let chars = str_chars(s);
    let ghost t = if s@.len() > 0 && s@[0] == '+' {
        s@.drop_first()
    } else {
        s@
    };
    let start: usize = if chars.len() > 0 && chars[0] == '+' {
        1
    } else {
        0
    };
    proof {
        assert(t =~= s@.subrange(start as int, s@.len() as int));
    }
    if chars.len() == start {
        return None;
    }
    let mut val: u32 = 0;
    let mut i: usize = start;
    while i < chars.len()
        invariant
            start <= i <= chars@.len(),
            chars@ == s@,
            t == s@.subrange(start as int, s@.len() as int),
            spec_all_digits(s@.subrange(start as int, i as int), base as int),
            val as int == spec_radix_val(s@.subrange(start as int, i as int), base as int),
        decreases chars@.len() - i,
    {
        let d = digit_val(chars[i]);
        if d < 0 || d as u32 >= base {
            proof {
                assert(t[i - start] == s@[i as int]);
                assert(!spec_all_digits(t, base as int));
            }
            return None;
        }
        let dv = d as u32;
        if val > (u32::MAX - dv) / base {
            proof {
                let pre = s@.subrange(start as int, i as int);
                let cur = s@.subrange(start as int, i + 1);
                assert(cur.drop_last() =~= pre);
                assert(cur.last() == s@[i as int]);
                assert(spec_radix_val(cur, base as int) > u32::MAX) by (nonlinear_arith)
                    requires
                        spec_radix_val(cur, base as int) == spec_radix_val(pre, base as int) * (
                        base as int) + dv,
                        spec_radix_val(pre, base as int) == val,
                        val > (u32::MAX - dv) / (base as int),
                        base == 8 || base == 10,
                        0 <= dv < base,
                        val <= u32::MAX,
                ;
                if spec_all_digits(t, base as int) {
                    lemma_radix_prefix_le(t, i + 1 - start, base as int);
                    assert(cur =~= t.subrange(0, i + 1 - start));
                }
            }
            return None;
        }
        proof {
            assert(val * base + dv <= u32::MAX) by (nonlinear_arith)
                requires
                    val <= (u32::MAX - dv) / (base as int),
                    base == 8 || base == 10,
                    0 <= dv < base,
            ;
        }
        let ghost pre = s@.subrange(start as int, i as int);
        val = val * base + dv;
        proof {
            assert(s@.subrange(start as int, i + 1).drop_last() =~= pre);
            assert(s@.subrange(start as int, i + 1).last() == s@[i as int]);
            assert(forall|j: int|
                0 <= j < i + 1 - start ==> #[trigger] s@.subrange(start as int, i + 1)[j]
                    == s@[j + start]);
        }
        i = i + 1;
    }
    proof {
        assert(s@.subrange(start as int, s@.len() as int) =~= t);
    }
    Some(val)
}

/// Growing a digit string never shrinks its value: if some prefix
/// already overflows, the whole string does.
proof fn lemma_radix_prefix_le(t: Seq<char>, n: int, base: int)
    requires
        0 <= n <= t.len(),
        base >= 2,
        spec_all_digits(t, base),
    ensures
        spec_radix_val(t.subrange(0, n), base) <= spec_radix_val(t, base),
    decreases t.len() - n,
{
    if n < t.len() {
        lemma_radix_prefix_le(t, n + 1, base);
        let a = t.subrange(0, n);
        let b = t.subrange(0, n + 1);
        assert(b.drop_last() =~= a);
        assert(b.last() == t[n]);
        assert(spec_radix_val(a, base) >= 0 ==> spec_radix_val(b, base) >= spec_radix_val(
            a,
            base,
        )) by (nonlinear_arith)
            requires
                spec_radix_val(b, base) == spec_radix_val(a, base) * base + spec_digit_val(t[n]),
                base >= 2,
                0 <= spec_digit_val(t[n]),
        ;
        lemma_radix_nonneg(a, base);
    }
    if n == t.len() {
        assert(t.subrange(0, n) =~= t);
    }
}

proof fn lemma_radix_nonneg(t: Seq<char>, base: int)
    requires
        base >= 2,
        spec_all_digits(t, base),
    ensures
        spec_radix_val(t, base) >= 0,
    decreases t,
{
    if t.len() > 0 {
        assert(spec_all_digits(t.drop_last(), base)) by {
            assert(forall|i: int|
                0 <= i < t.len() - 1 ==> #[trigger] t.drop_last()[i] == t[i]);
        }
        lemma_radix_nonneg(t.drop_last(), base);
        assert(spec_radix_val(t, base) >= 0) by (nonlinear_arith)
            requires
                spec_radix_val(t, base) == spec_radix_val(t.drop_last(), base) * base
                    + spec_digit_val(t.last()),
                spec_radix_val(t.drop_last(), base) >= 0,
                base >= 2,
                0 <= spec_digit_val(t.last()),
        ;
    }
}

/// A reference to a user or group: by numeric id, or by a name that
/// the system will resolve.
pub enum OwnerRef {
    Numeric(u32),
    Named(String),
}

/// Mathematical image of an `OwnerRef`.
pub enum OwnerRefV {
    Numeric(int),
    Named(Seq<char>),
}

impl View for OwnerRef {
    type V = OwnerRefV;

    open spec fn view(&self) -> OwnerRefV {
        match self {
            OwnerRef::Numeric(n) => OwnerRefV::Numeric(*n as int),
            OwnerRef::Named(s) => OwnerRefV::Named(s@),
        }
    }
}

/// What the owner-change command decides before touching the system:
/// either its usage error, or which user and group to resolve and the
/// target path.
pub enum ChownPlan {
    Usage,
    Plan { user: Option<OwnerRef>, group: Option<OwnerRef>, target: String },
}

/// Mathematical image of a `ChownPlan`.
pub enum ChownPlanV {
    Usage,
    Plan { user: Option<OwnerRefV>, group: Option<OwnerRefV>, target: Seq<char> },
}

impl View for ChownPlan {
    type V = ChownPlanV;

    open spec fn view(&self) -> ChownPlanV {
        match self {
            ChownPlan::Usage => ChownPlanV::Usage,
            ChownPlan::Plan { user, group, target } => ChownPlanV::Plan {
                user: match user {
                    Some(u) => Some(u@),
                    None => None,
                },
                group: match group {
                    Some(g) => Some(g@),
                    None => None,
                },
                target: target@,
            },
        }
    }
}

/// One owner part resolved: absent when empty, numeric when it reads
/// as a decimal id, a name otherwise.
pub open spec fn spec_owner_ref(part: Seq<char>) -> Option<OwnerRefV> {
    if part.len() == 0 {
        None
    } else {
        match spec_parse_u32(part, 10) {
            Some(n) => Some(OwnerRefV::Numeric(n as int)),
            None => Some(OwnerRefV::Named(part)),
        }
    }
}

/// The owner-change plan: `user[:group] file`, with the user and group
/// split at the first two colons; an absent or empty part resolves to
/// no change.
pub open spec fn spec_chown_plan(args: Seq<Seq<char>>) -> ChownPlanV {
    if args.len() < 2 {
        ChownPlanV::Usage
    } else {
        let os = args[0];
        let k1 = spec_find_char(os, 0, ':');
        if k1 >= os.len() {
            ChownPlanV::Plan { user: spec_owner_ref(os), group: None, target: args[1] }
        } else {
            let k2 = spec_find_char(os, k1 + 1, ':');
            ChownPlanV::Plan {
                user: spec_owner_ref(os.subrange(0, k1)),
                group: spec_owner_ref(os.subrange(k1 + 1, k2)),
                target: args[1],
            }
        }
    }
}

/// Resolves one owner part.
fn owner_ref_of(part: String) -> (r: Option<OwnerRef>)
    ensures
        match r {
            Some(v) => spec_owner_ref(part@) == Some(v@),
            None => spec_owner_ref(part@) is None,
        },
{
    if part.as_str().is_empty() {
        return None;
    }
    match parse_u32_radix(part.as_str(), 10) {
        Some(n) => Some(OwnerRef::Numeric(n)),
        None => Some(OwnerRef::Named(part)),
    }
}

/// Works out the owner-change plan from the arguments.
pub fn chown_plan(args: &Vec<String>) -> (r: ChownPlan)
    ensures
        r@ == spec_chown_plan(texts_view(args@)),
{
    if args.len() < 2 {
        return ChownPlan::Usage;
    }
    let os = str_chars(args[0].as_str());
    let target = args[1].clone();
    let k1 = find_char(&os, 0, ':');
    proof {
        lemma_find_char_bounds(os@, 0, ':');
    }
    if k1 >= os.len() {
        let user = owner_ref_of(args[0].clone());
        proof {
            assert(os@.subrange(0, os@.len() as int) =~= os@);
        }
        ChownPlan::Plan { user, group: None, target }
    } else {
        let k2 = find_char(&os, k1 + 1, ':');
        proof {
            lemma_find_char_bounds(os@, k1 + 1, ':');
        }
        let user_part = collect_range(&os, 0, k1);
        let group_part = collect_range(&os, k1 + 1, k2);
        let user = owner_ref_of(user_part);
        let group = owner_ref_of(group_part);
        ChownPlan::Plan { user, group, target }
    }
}

/// What the link command decides before touching the system: its usage
/// error, or whether the link is symbolic and its source and target.
pub enum LnPlan {
    Usage,
    Link { symbolic: bool, source: String, target: String },
}

/// Mathematical image of an `LnPlan`.
pub enum LnPlanV {
    Usage,
    Link { symbolic: bool, source: Seq<char>, target: Seq<char> },
}

impl View for LnPlan {
    type V = LnPlanV;

    open spec fn view(&self) -> LnPlanV {
        match self {
            LnPlan::Usage => LnPlanV::Usage,
            LnPlan::Link { symbolic, source, target } => LnPlanV::Link {
                symbolic: *symbolic,
                source: source@,
                target: target@,
            },
        }
    }
}

/// Whether the first argument asks for a symbolic link.
pub open spec fn spec_ln_symbolic(a: Seq<char>) -> bool {
    a == "-s"@ || a == "-ر"@ || a == "--symbolic"@
}

/// The link plan: an optional symbolic flag, then the source and the
/// target.
pub open spec fn spec_ln_plan(args: Seq<Seq<char>>) -> LnPlanV {
    if args.len() == 0 {
        LnPlanV::Usage
    } else {
        let symbolic = spec_ln_symbolic(args[0]);
        let idx: int = if symbolic {
            1
        } else {
            0
        };
        if args.len() < idx + 2 {
            LnPlanV::Usage
        } else {
            LnPlanV::Link { symbolic, source: args[idx], target: args[idx + 1] }
        }
    }
}

/// Works out the link plan from the arguments.
pub fn ln_plan(args: &Vec<String>) -> (r: LnPlan)
    ensures
        r@ == spec_ln_plan(texts_view(args@)),
{
    if args.len() == 0 {
        return LnPlan::Usage;
    }
    let a0 = args[0].as_str();
    let symbolic = str_eq(a0, "-s") || str_eq(a0, "-ر") || str_eq(a0, "--symbolic");
    let idx: usize = if symbolic {
        1
    } else {
        0
    };
    if args.len() < idx + 2 {
        return LnPlan::Usage;
    }
    LnPlan::Link { symbolic, source: args[idx].clone(), target: args[idx + 1].clone() }
}

} // verus!
