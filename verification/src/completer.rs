//! Tab completion for command names: the catalog of built-in commands,
//! Arabic and English, and prefix matching over it. Path completion and
//! the line editor's calling conventions live outside the library.

use vstd::prelude::*;

use crate::text::lower_of;
use crate::text::to_lower;
use vstd::string::StrSliceExecFns;

verus! {

/// One completion candidate: what is shown and what is inserted.
#[derive(Debug, Clone, PartialEq)]
pub struct Candidate {
    pub display: String,
    pub replacement: String,
}

/// Whether `p` is a prefix of `s`.
pub open spec fn spec_is_prefix(p: Seq<char>, s: Seq<char>) -> bool {
    p.len() <= s.len() && s.subrange(0, p.len() as int) == p
}

/// Whether `s` starts with `p`.
#[verifier::loop_isolation(false)]
pub fn str_starts_with(s: &str, p: &str) -> (r: bool)
    ensures
        r == spec_is_prefix(p@, s@),
{
    let np = p.unicode_len();
    let ns = s.unicode_len();
    if np > ns {
        return false;
    }
    let mut i: usize = 0;
    while i < np
        invariant
            i <= np,
            np == p@.len(),
            ns == s@.len(),
            np <= ns,
            forall|j: int| 0 <= j < i ==> s@[j] == p@[j],
        decreases np - i,
    {
        if s.get_char(i) != p.get_char(i) {
            proof {
                assert(s@.subrange(0, p@.len() as int)[i as int] == s@[i as int]);
            }
            return false;
        }
        i = i + 1;
    }
    proof {
        assert(s@.subrange(0, p@.len() as int) =~= p@);
    }
    true
}

/// The replacements the catalog offers for a partial word: for each
/// entry in order, its Arabic name when the partial is its prefix, then
/// its English name when the lowercased partial is its prefix.
pub open spec fn spec_matches(
    cat: Seq<(&'static str, &'static str)>,
    p: Seq<char>,
    pl: Seq<char>,
) -> Seq<Seq<char>>
    decreases cat,
{
    if cat.len() == 0 {
        Seq::empty()
    } else {
        spec_matches(cat.drop_last(), p, pl) + (if spec_is_prefix(p, cat.last().0@) {
            seq![cat.last().0@]
        } else {
            Seq::empty()
        }) + (if spec_is_prefix(pl, cat.last().1@) {
            seq![cat.last().1@]
        } else {
            Seq::empty()
        })
    }
}

/// The replacements of a candidate vector.
pub open spec fn candidate_reprs(v: Seq<Candidate>) -> Seq<Seq<char>> {
    Seq::new(v.len(), |i: int| v[i].replacement@)
}

/// The built-in commands' names, Arabic beside English, in the order
/// completion offers them.
pub open spec fn spec_catalog_wf(cat: Seq<(&'static str, &'static str)>) -> bool {
    &&& cat.len() == 18
    &&& cat[0].0@ == "خروج"@ && cat[0].1@ == "exit"@
    &&& cat[1].0@ == "مساعدة"@ && cat[1].1@ == "help"@
    &&& cat[2].0@ == "اطبع"@ && cat[2].1@ == "echo"@
    &&& cat[3].0@ == "امسح"@ && cat[3].1@ == "clear"@
    &&& cat[4].0@ == "اين"@ && cat[4].1@ == "pwd"@
    &&& cat[5].0@ == "انتقل"@ && cat[5].1@ == "cd"@
    &&& cat[6].0@ == "اعرض"@ && cat[6].1@ == "ls"@
    &&& cat[7].0@ == "اقرأ"@ && cat[7].1@ == "cat"@
    &&& cat[8].0@ == "انشئ"@ && cat[8].1@ == "mkdir"@
    &&& cat[9].0@ == "المس"@ && cat[9].1@ == "touch"@
    &&& cat[10].0@ == "احذف"@ && cat[10].1@ == "rm"@
    &&& cat[11].0@ == "انسخ"@ && cat[11].1@ == "cp"@
    &&& cat[12].0@ == "انقل"@ && cat[12].1@ == "mv"@
    &&& cat[13].0@ == "ابحث"@ && cat[13].1@ == "grep"@
    &&& cat[14].0@ == "صلاحيات"@ && cat[14].1@ == "chmod"@
    &&& cat[15].0@ == "مالك"@ && cat[15].1@ == "chown"@
    &&& cat[16].0@ == "رابط"@ && cat[16].1@ == "ln"@
    &&& cat[17].0@ == "اصدار"@ && cat[17].1@ == "version"@
}

/// Completion over the built-in command catalog.
pub struct OceanCompleter {
    commands: Vec<(&'static str, &'static str)>,
}

impl Default for OceanCompleter {
    /// A completer over the full catalog.
    fn default() -> (c: OceanCompleter)
        ensures
            spec_catalog_wf(c.catalog()),
    {
        OceanCompleter::new()
    }
}

impl OceanCompleter {
    /// The catalog of name pairs.
    pub closed spec fn catalog(&self) -> Seq<(&'static str, &'static str)> {
        self.commands@
    }

    /// Builds the completer over the full catalog of built-in commands.
    pub fn new() -> (c: OceanCompleter)
        ensures
            spec_catalog_wf(c.catalog()),
    {
        let mut commands: Vec<(&'static str, &'static str)> = Vec::new();
        commands.push(("خروج", "exit"));
        commands.push(("مساعدة", "help"));
        commands.push(("اطبع", "echo"));
        commands.push(("امسح", "clear"));
        commands.push(("اين", "pwd"));
        commands.push(("انتقل", "cd"));
        commands.push(("اعرض", "ls"));
        commands.push(("اقرأ", "cat"));
        commands.push(("انشئ", "mkdir"));
        commands.push(("المس", "touch"));
        commands.push(("احذف", "rm"));
        commands.push(("انسخ", "cp"));
        commands.push(("انقل", "mv"));
        commands.push(("ابحث", "grep"));
        commands.push(("صلاحيات", "chmod"));
        commands.push(("مالك", "chown"));
        commands.push(("رابط", "ln"));
        commands.push(("اصدار", "version"));
        OceanCompleter { commands }
    }

    /// Completes a partial command name: each catalog entry offers its
    /// Arabic name when the partial is its prefix, and its English name
    /// when the lowercased partial is its prefix.
    #[verifier::loop_isolation(false)]
    pub fn complete_command(&self, partial: &str) -> (r: Vec<Candidate>)
        ensures
            candidate_reprs(r@) == spec_matches(self.catalog(), partial@, lower_of(partial@)),
            forall|k: int| 0 <= k < r@.len() ==> r@[k].display@ == #[trigger] r@[k].replacement@,
    {
        let ghost cat = self.catalog();
        let partial_lower = to_lower(partial);
        let mut matches: Vec<Candidate> = Vec::new();
        let mut i: usize = 0;
        proof {
            assert(candidate_reprs(matches@) =~= spec_matches(cat.take(0), partial@, lower_of(
                partial@,
            )));
        }
        while i < self.commands.len()
            invariant
                i <= self.commands@.len(),
                cat == self.catalog(),
                partial_lower@ == lower_of(partial@),
                candidate_reprs(matches@) == spec_matches(
                    cat.take(i as int),
                    partial@,
                    lower_of(partial@),
                ),
                forall|k: int|
                    0 <= k < matches@.len() ==> matches@[k].display@ == #[trigger] matches@[k].replacement@,
            decreases self.commands@.len() - i,
        {
            let (ar, en) = self.commands[i];
            let ghost before = matches@;
            if str_starts_with(ar, partial) {
                matches.push(
                    Candidate { display: ar.to_owned(), replacement: ar.to_owned() },
                );
            }
            let ghost mid = matches@;
            if str_starts_with(en, partial_lower.as_str()) {
                matches.push(
                    Candidate { display: en.to_owned(), replacement: en.to_owned() },
                );
            }
            proof {
                let p = partial@;
                let pl = lower_of(partial@);
                assert(cat.take(i + 1).drop_last() =~= cat.take(i as int));
                assert(cat.take(i + 1).last() == cat[i as int]);
                if spec_is_prefix(p, ar@) {
                    assert(candidate_reprs(mid) =~= candidate_reprs(before) + seq![ar@]);
                } else {
                    assert(candidate_reprs(mid) =~= candidate_reprs(before) + Seq::<
                        Seq<char>,
                    >::empty());
                }
                if spec_is_prefix(pl, en@) {
                    assert(candidate_reprs(matches@) =~= candidate_reprs(mid) + seq![en@]);
                } else {
                    assert(candidate_reprs(matches@) =~= candidate_reprs(mid) + Seq::<
                        Seq<char>,
                    >::empty());
                }
            }
            i = i + 1;
        }
        proof {
            assert(cat.take(self.commands@.len() as int) =~= cat);
        }
        matches
    }
}

/// The line-editing helper's core: it carries the completer; the editor
/// bindings around it live outside the library.
pub struct OceanHelper {
    completer: OceanCompleter,
}

impl OceanHelper {
    /// The catalog the held completer offers.
    pub closed spec fn catalog(&self) -> Seq<(&'static str, &'static str)> {
        self.completer.catalog()
    }

    /// Builds the helper with a fresh completer.
    pub fn new() -> (h: OceanHelper)
        ensures
            spec_catalog_wf(h.catalog()),
    {
        OceanHelper { completer: OceanCompleter::new() }
    }

    /// The completer, for the editor bindings.
    pub fn completer(&self) -> (c: &OceanCompleter)
        ensures
            c.catalog() == self.catalog(),
    {
        &self.completer
    }
}

} // verus!
