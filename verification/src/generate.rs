//! Keeping `generated/` in step with `tokens/`: which artifacts to write,
//! which files are stale, and what a check reports. The reading, writing and
//! deleting of files is the program's; the decisions are here.

use vstd::prelude::*;

use crate::emit::i18n::{
    lemma_same_table_text, label_entries, label_reported, labels_consistent, render, rendered, table_file_text, table_json,
    LabelError, Locales,
};
use crate::model::{total_variants, Tokens};
use crate::text::str_eq;

verus! {

/// One file the generator owns, start to finish.
pub struct Artifact {
    /// Path relative to the repository root.
    pub path: String,
    pub contents: String,
}

/// What a `generate` run did.
pub struct Report {
    pub families: usize,
    pub variants: usize,
    pub written: Vec<String>,
    pub removed: Vec<String>,
    pub unchanged: usize,
}

/// The text of each string.
pub open spec fn views(s: Seq<String>) -> Seq<Seq<char>> {
    s.map_values(|p: String| p@)
}

/// The paths of the artifacts.
pub open spec fn artifact_paths(arts: Seq<Artifact>) -> Seq<Seq<char>> {
    arts.map_values(|a: Artifact| a.path@)
}

/// Whether the file on disk already holds the artifact.
pub open spec fn up_to_date(a: Artifact, disk: Option<String>) -> bool {
    disk matches Some(d) && d@ == a.contents@
}

/// The problem a check reports for one artifact, if any.
pub open spec fn artifact_problem(a: Artifact, disk: Option<String>) -> Option<Seq<char>> {
    match disk {
        None => Some("missing: "@ + a.path@),
        Some(d) => if d@ != a.contents@ {
            Some("out of date: "@ + a.path@)
        } else {
            None
        },
    }
}

pub open spec fn artifact_problems(arts: Seq<Artifact>, disk: Seq<Option<String>>, n: int) -> Seq<Seq<char>>
    decreases n,
{
    if n <= 0 {
        seq![]
    } else {
        match artifact_problem(arts[n - 1], disk[n - 1]) {
            Some(p) => artifact_problems(arts, disk, n - 1).push(p),
            None => artifact_problems(arts, disk, n - 1),
        }
    }
}

/// The files under `generated/` that no artifact of the plan produces, in
/// the order they were listed.
pub open spec fn stale(arts: Seq<Artifact>, existing: Seq<Seq<char>>, n: int) -> Seq<Seq<char>>
    decreases n,
{
    if n <= 0 {
        seq![]
    } else if artifact_paths(arts).contains(existing[n - 1]) {
        stale(arts, existing, n - 1)
    } else {
        stale(arts, existing, n - 1).push(existing[n - 1])
    }
}

/// The paths of the first `n` artifacts that must be written.
pub open spec fn written_paths(arts: Seq<Artifact>, disk: Seq<Option<String>>, n: int) -> Seq<Seq<char>>
    decreases n,
{
    if n <= 0 {
        seq![]
    } else if up_to_date(arts[n - 1], disk[n - 1]) {
        written_paths(arts, disk, n - 1)
    } else {
        written_paths(arts, disk, n - 1).push(arts[n - 1].path@)
    }
}

/// How many of the first `n` artifacts are already on disk as they should be.
pub open spec fn count_up_to_date(arts: Seq<Artifact>, disk: Seq<Option<String>>, n: int) -> nat
    decreases n,
{
    if n <= 0 {
        0
    } else if up_to_date(arts[n - 1], disk[n - 1]) {
        count_up_to_date(arts, disk, n - 1) + 1
    } else {
        count_up_to_date(arts, disk, n - 1)
    }
}

pub open spec fn stale_problems(s: Seq<Seq<char>>) -> Seq<Seq<char>> {
    s.map_values(|p: Seq<char>| "stale, not produced by tokens/: "@ + p)
}

/// The files the label tables are written to, French then English.
pub open spec fn label_artifacts(a: Seq<Artifact>, l: Locales) -> bool {
    &&& a.len() == 2
    &&& a[0].path@ == "generated/i18n/labels.fr.json"@
    &&& a[0].contents@ == table_file_text(l.fr)
    &&& a[1].path@ == "generated/i18n/labels.en.json"@
    &&& a[1].contents@ == table_file_text(l.en)
}

/// Every artifact the library renders from the tokens: the two label
/// tables. Pure, so a check and a generate run cannot disagree about what the
/// output should be. A file under `generated/` that is not one of these is
/// stale: a check reports it and a generate run removes it.
pub fn plan(tokens: &Tokens) -> (res: Result<Vec<Artifact>, LabelError>)
    ensures
        res is Ok <==> labels_consistent(label_entries(*tokens)),
        res matches Ok(a) ==> exists|l: Locales| rendered(*tokens, l) && #[trigger] label_artifacts(a@, l),
        res matches Err(e) ==> label_reported(label_entries(*tokens), e),
{
    let locales = match render(tokens) {
        Ok(l) => l,
        Err(e) => return Err(e),
    };
    let mut out: Vec<Artifact> = Vec::new();
    out.push(Artifact { path: String::from_str("generated/i18n/labels.fr.json"), contents: table_json(&locales.fr) });
    out.push(Artifact { path: String::from_str("generated/i18n/labels.en.json"), contents: table_json(&locales.en) });
    assert(rendered(*tokens, locales));
    assert(label_artifacts(out@, locales));
    let res: Result<Vec<Artifact>, LabelError> = Ok(out);
    assert(res matches Ok(a) && a@ == out@);
    res
}

impl Report {
    /// An empty report for the tokens: their family and variant counts.
    pub fn new(tokens: &Tokens) -> (res: Report)
        requires
            total_variants(tokens.families@) <= usize::MAX,
        ensures
            res.families == tokens.families@.len(),
            res.variants == total_variants(tokens.families@),
            res.written@.len() == 0,
            res.removed@.len() == 0,
            res.unchanged == 0,
    {
        Report {
            families: tokens.families.len(),
            variants: tokens.variant_count(),
            written: Vec::new(),
            removed: Vec::new(),
            unchanged: 0,
        }
    }

    /// Records, for each artifact, whether the file on disk already holds it
    /// (`on_disk[i]` is the file's text, `None` when it cannot be read), and
    /// returns which artifacts must be written, in artifact order.
    pub fn record_artifacts(&mut self, artifacts: &Vec<Artifact>, on_disk: &Vec<Option<String>>) -> (write: Vec<bool>)
        requires
            on_disk@.len() == artifacts@.len(),
            old(self).unchanged + artifacts@.len() <= usize::MAX,
        ensures
            write@.len() == artifacts@.len(),
            forall|i: int| 0 <= i < write@.len() ==> write@[i] == !up_to_date(#[trigger] artifacts@[i], on_disk@[i]),
            final(self).families == old(self).families,
            final(self).variants == old(self).variants,
            final(self).removed@ == old(self).removed@,
            final(self).unchanged == old(self).unchanged + count_up_to_date(artifacts@, on_disk@, artifacts@.len() as int),
            views(final(self).written@) == views(old(self).written@) + written_paths(artifacts@, on_disk@, artifacts@.len() as int),
    {
        let mut write: Vec<bool> = Vec::new();
        let mut i: usize = 0;
        while i < artifacts.len()
            invariant
                i <= artifacts@.len(),
                on_disk@.len() == artifacts@.len(),
                write@.len() == i,
                self.unchanged == old(self).unchanged + count_up_to_date(artifacts@, on_disk@, i as int),
                count_up_to_date(artifacts@, on_disk@, i as int) <= i,
                views(self.written@) == views(old(self).written@) + written_paths(artifacts@, on_disk@, i as int),
                old(self).unchanged + artifacts@.len() <= usize::MAX,
                self.families == old(self).families,
                self.variants == old(self).variants,
                self.removed@ == old(self).removed@,
                forall|k: int| 0 <= k < i ==> write@[k] == !up_to_date(#[trigger] artifacts@[k], on_disk@[k]),
            decreases artifacts@.len() - i,
        {
            let a = &artifacts[i];
            let same = match &on_disk[i] {
                Some(d) => str_eq(d.as_str(), a.contents.as_str()),
                None => false,
            };
            let ghost prev = self.written@;
            if same {
                self.unchanged = self.unchanged + 1;
            } else {
                self.written.push(a.path.clone());
                assert(views(self.written@) =~= views(prev).push(a.path@));
            }
            write.push(!same);
            i = i + 1;
        }
        write
    }
}

/// Whether some artifact has this path.
fn produced(artifacts: &Vec<Artifact>, path: &str) -> (res: bool)
    ensures
        res == artifact_paths(artifacts@).contains(path@),
{
    let mut i: usize = 0;
    while i < artifacts.len()
        invariant
            i <= artifacts@.len(),
            forall|k: int| 0 <= k < i ==> artifacts@[k].path@ != path@,
        decreases artifacts@.len() - i,
    {
        if str_eq(artifacts[i].path.as_str(), path) {
            assert(artifact_paths(artifacts@)[i as int] == path@);
            return true;
        }
        i = i + 1;
    }
    proof {
        if artifact_paths(artifacts@).contains(path@) {
            let k = choose|k: int| 0 <= k < artifact_paths(artifacts@).len() && artifact_paths(artifacts@)[k] == path@;
            assert(artifacts@[k].path@ == path@);
        }
    }
    false
}

/// The listed files under `generated/` that no artifact produces; a removed
/// theme must not leave an orphan behind.
pub fn stale_files(artifacts: &Vec<Artifact>, existing: &Vec<String>) -> (res: Vec<String>)
    ensures
        views(res@) == stale(artifacts@, views(existing@), existing@.len() as int),
{
    let ghost ex = views(existing@);
    let mut out: Vec<String> = Vec::new();
    let mut i: usize = 0;
    while i < existing.len()
        invariant
            i <= existing@.len(),
            ex == views(existing@),
            views(out@) == stale(artifacts@, ex, i as int),
        decreases existing@.len() - i,
    {
        assert(ex[i as int] == existing@[i as int]@);
        if !produced(artifacts, existing[i].as_str()) {
            let ghost prev = out@;
            out.push(existing[i].clone());
            assert(views(out@) =~= views(prev).push(existing@[i as int]@));
        }
        i = i + 1;
    }
    out
}

/// What a check reports: each artifact that is missing or out of date, in
/// artifact order, then each stale file. Empty means `generated/` matches.
pub fn check_problems(
    artifacts: &Vec<Artifact>,
    on_disk: &Vec<Option<String>>,
    existing: &Vec<String>,
) -> (res: Vec<String>)
    requires
        on_disk@.len() == artifacts@.len(),
    ensures
        views(res@) == artifact_problems(artifacts@, on_disk@, artifacts@.len() as int) + stale_problems(
            stale(artifacts@, views(existing@), existing@.len() as int),
        ),
{
    let mut out: Vec<String> = Vec::new();
    let mut i: usize = 0;
    while i < artifacts.len()
        invariant
            i <= artifacts@.len(),
            on_disk@.len() == artifacts@.len(),
            views(out@) == artifact_problems(artifacts@, on_disk@, i as int),
        decreases artifacts@.len() - i,
    {
        let a = &artifacts[i];
        let ghost prev = out@;
        match &on_disk[i] {
            None => {
                let mut m = String::from_str("missing: ");
                m.append(a.path.as_str());
                out.push(m);
                assert(views(out@) =~= views(prev).push("missing: "@ + a.path@));
            },
            Some(d) => {
                if !str_eq(d.as_str(), a.contents.as_str()) {
                    let mut m = String::from_str("out of date: ");
                    m.append(a.path.as_str());
                    out.push(m);
                    assert(views(out@) =~= views(prev).push("out of date: "@ + a.path@));
                }
            },
        }
        i = i + 1;
    }
    let ghost base = views(out@);
    let stale_list = stale_files(artifacts, existing);
    let mut j: usize = 0;
    while j < stale_list.len()
        invariant
            j <= stale_list@.len(),
            views(out@) == base + stale_problems(views(stale_list@)).take(j as int),
        decreases stale_list@.len() - j,
    {
        let mut m = String::from_str("stale, not produced by tokens/: ");
        m.append(stale_list[j].as_str());
        let ghost prev = out@;
        out.push(m);
        proof {
            let sp = stale_problems(views(stale_list@));
            assert(sp[j as int] == "stale, not produced by tokens/: "@ + stale_list@[j as int]@);
            assert(sp.take(j + 1) =~= sp.take(j as int).push(sp[j as int]));
            assert(views(out@) =~= views(prev).push(sp[j as int]));
        }
        j = j + 1;
    }
    assert(stale_problems(views(stale_list@)).take(stale_list@.len() as int) =~= stale_problems(views(stale_list@)));
    out
}

} // verus!

verus! {

/// A check and a generate run cannot disagree: the artifacts a check
/// reports are exactly the ones a generate run writes, and a check finds
/// nothing wrong with them only when every artifact is already on disk.
pub proof fn law_check_agrees_with_generate(arts: Seq<Artifact>, disk: Seq<Option<String>>, n: int)
    requires
        0 <= n <= arts.len(),
        disk.len() == arts.len(),
    ensures
        artifact_problems(arts, disk, n).len() == written_paths(arts, disk, n).len(),
        artifact_problems(arts, disk, n).len() + count_up_to_date(arts, disk, n) == n,
    decreases n,
{
    if n > 0 {
        law_check_agrees_with_generate(arts, disk, n - 1);
    }
}

} // verus!

verus! {

/// What a generate run leaves on disk: every artifact's file holds it.
pub open spec fn all_written(arts: Seq<Artifact>, disk: Seq<Option<String>>) -> bool {
    &&& disk.len() == arts.len()
    &&& forall|i: int| 0 <= i < arts.len() ==> #[trigger] up_to_date(arts[i], disk[i])
}

/// A generate run followed by a check finds nothing: once every artifact is
/// written and only files that some artifact produces are left, the check
/// reports no problem.
pub proof fn law_generate_then_check_is_clean(arts: Seq<Artifact>, disk: Seq<Option<String>>, existing: Seq<Seq<char>>)
    requires
        all_written(arts, disk),
        forall|k: int| 0 <= k < existing.len() ==> artifact_paths(arts).contains(#[trigger] existing[k]),
    ensures
        artifact_problems(arts, disk, arts.len() as int) + stale_problems(stale(arts, existing, existing.len() as int))
            == Seq::<Seq<char>>::empty(),
{
    lemma_no_problems(arts, disk, arts.len() as int);
    lemma_nothing_stale(arts, existing, existing.len() as int);
    assert(stale_problems(Seq::<Seq<char>>::empty()) =~= Seq::<Seq<char>>::empty());
    assert(Seq::<Seq<char>>::empty() + Seq::<Seq<char>>::empty() =~= Seq::<Seq<char>>::empty());
}

proof fn lemma_no_problems(arts: Seq<Artifact>, disk: Seq<Option<String>>, n: int)
    requires
        all_written(arts, disk),
        n <= arts.len(),
    ensures
        artifact_problems(arts, disk, n) == Seq::<Seq<char>>::empty(),
    decreases n,
{
    if n > 0 {
        assert(up_to_date(arts[n - 1], disk[n - 1]));
        lemma_no_problems(arts, disk, n - 1);
    }
}

proof fn lemma_nothing_stale(arts: Seq<Artifact>, existing: Seq<Seq<char>>, n: int)
    requires
        forall|k: int| 0 <= k < existing.len() ==> artifact_paths(arts).contains(#[trigger] existing[k]),
        n <= existing.len(),
    ensures
        stale(arts, existing, n) == Seq::<Seq<char>>::empty(),
    decreases n,
{
    if n > 0 {
        assert(artifact_paths(arts).contains(existing[n - 1]));
        lemma_nothing_stale(arts, existing, n - 1);
    }
}

} // verus!

verus! {

/// What `plan` writes is a function of the tokens alone: any two sets of
/// label tables the tokens give are written as the same artifacts, path for
/// path and text for text, so a check and a generate run cannot disagree.
pub proof fn law_plan_is_a_function_of_the_tokens(
    t: Tokens,
    l1: Locales,
    l2: Locales,
    a1: Seq<Artifact>,
    a2: Seq<Artifact>,
)
    requires
        rendered(t, l1),
        rendered(t, l2),
        label_artifacts(a1, l1),
        label_artifacts(a2, l2),
    ensures
        a1.len() == a2.len(),
        forall|i: int| 0 <= i < a1.len() ==> #[trigger] a1[i].path@ == a2[i].path@ && a1[i].contents@ == a2[i].contents@,
{
    lemma_same_table_text(l1.fr, l2.fr);
    lemma_same_table_text(l1.en, l2.en);
}

} // verus!
