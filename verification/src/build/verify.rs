//! What a build has to show for itself: executables that are position independent,
//! and that need no libraries but those allowed.

use crate::build::error::BuildError;
use crate::elf::{ElfInfo, InspectError};
use crate::path::join_path;
use crate::template::Vars;
use crate::text::{begins_with, chars_of, join_texts};
use vstd::prelude::*;
use vstd::string::*;

verus! {

/// What comes next in a verification: its outcome, or a file to inspect.
#[derive(Debug)]
pub enum Check {
    Passed,
    Failed(BuildError),
    Inspect(Inspection),
}

/// A file to inspect.
#[derive(Debug)]
pub struct Inspection {
    pub path: String,
    /// The files to inspect after it, as the recipe writes them.
    pub rest: Vec<String>,
    pub vars: Vars,
    pub work: String,
    /// Whether the files have to be there.
    pub required: bool,
}

/// What was found at a path.
#[derive(Debug)]
pub enum Finding {
    /// There is nothing there.
    Missing,
    /// There is no image that can be read.
    Unreadable(InspectError),
    /// An image.
    Image(ElfInfo),
}

/// `check` goes on with the first of the paths, and keeps the others for later.
pub open spec fn goes_on(
    check: Check,
    paths: Seq<Seq<char>>,
    vars: Map<Seq<char>, Seq<char>>,
    work: Seq<char>,
    required: bool,
) -> bool {
    if paths.len() == 0 {
        check is Passed
    } else {
        match crate::template::expansion(vars, paths[0]) {
            Ok(path) => check matches Check::Inspect(inspection) && inspection.path@
                == crate::path::joined(work, path) && crate::text::texts(inspection.rest@)
                == paths.drop_first() && inspection.vars@ == vars && inspection.work@ == work
                && inspection.required == required,
            Err(_) => check matches Check::Failed(BuildError::Template { error }) && error.arises(
                vars,
                paths[0],
            ),
        }
    }
}

/// Goes on with the first of the paths.
fn proceed(paths: Vec<String>, vars: Vars, work: String, required: bool) -> (check: Check)
    ensures
        goes_on(check, crate::text::texts(paths@), vars@, work@, required),
{
    let mut rest = paths;
    if rest.len() == 0 {
        return Check::Passed;
    }
    let first = rest.remove(0);
    assert(first@ == crate::text::texts(paths@)[0]);
    assert(crate::text::texts(rest@) =~= crate::text::texts(paths@).drop_first());
    match vars.expand(first.as_str()) {
        Ok(path) => {
            let path = join_path(work.as_str(), path.as_str());
            Check::Inspect(Inspection { path, rest, vars, work, required })
        },
        Err(error) => Check::Failed(BuildError::Template { error }),
    }
}

/// A list of texts, copied.
fn copy_texts(list: &Vec<String>) -> (copy: Vec<String>)
    ensures
        crate::text::texts(copy@) == crate::text::texts(list@),
{
    let mut copy: Vec<String> = Vec::new();
    let mut i: usize = 0;
    while i < list.len()
        invariant
            i <= list@.len(),
            copy@.len() == i,
            forall|j: int| 0 <= j < i ==> #[trigger] copy@[j]@ == list@[j]@,
        decreases list@.len() - i,
    {
        copy.push(list[i].clone());
        i += 1;
    }
    assert(crate::text::texts(copy@) =~= crate::text::texts(list@));
    copy
}

/// Begins to verify that the files at `paths` are position independent executables.
pub fn verify_pie(paths: &Vec<String>, vars: &Vars, work: &str) -> (check: Check)
    ensures
        goes_on(check, crate::text::texts(paths@), vars@, work@, true),
{
    proceed(copy_texts(paths), vars.clone(), work.to_owned(), true)
}

/// Begins to verify that the files at `paths`, as far as they exist, are position
/// independent executables.
pub fn verify_packaged(paths: &Vec<String>, vars: &Vars, work: &str) -> (check: Check)
    ensures
        goes_on(check, crate::text::texts(paths@), vars@, work@, false),
{
    proceed(copy_texts(paths), vars.clone(), work.to_owned(), false)
}

impl Inspection {
    /// What was found at the path decides how the verification goes on. There is
    /// something to say of an image.
    pub fn judge(self, finding: Finding) -> (judgement: (Option<String>, Check))
        ensures
            match finding {
                Finding::Missing => judgement.0 is None && if self.required {
                    judgement.1 matches Check::Failed(BuildError::Missing { path }) && path@
                        == self.path@
                } else {
                    goes_on(
                        judgement.1,
                        crate::text::texts(self.rest@),
                        self.vars@,
                        self.work@,
                        false,
                    )
                },
                Finding::Unreadable(cause) => judgement.0 is None && judgement.1 == Check::Failed(
                    BuildError::Unreadable { fault: cause },
                ),
                Finding::Image(info) => if info@.is_pie() {
                    &&& crate::text::text_of(judgement.0) == Some(
                        self.path@ + " — ELF DYN, DT_FLAGS_1 PIE, PT_INTERP present"@,
                    )
                    &&& goes_on(
                        judgement.1,
                        crate::text::texts(self.rest@),
                        self.vars@,
                        self.work@,
                        self.required,
                    )
                } else {
                    &&& crate::text::text_of(judgement.0) == Some(
                        self.path@ + ": "@ + crate::text::join(info@.reasons(), "; "@),
                    )
                    &&& judgement.1 matches Check::Failed(BuildError::NotPie { path }) && path@
                        == self.path@
                },
            },
    {
        match finding {
            Finding::Missing => {
                if self.required {
                    (None, Check::Failed(BuildError::Missing { path: self.path }))
                } else {
                    (None, proceed(self.rest, self.vars, self.work, false))
                }
            },
            Finding::Unreadable(fault) => (None, Check::Failed(BuildError::Unreadable { fault })),
            Finding::Image(info) => {
                let mut line = self.path.clone();
                if info.is_pie_executable() {
                    line.append(" — ELF DYN, DT_FLAGS_1 PIE, PT_INTERP present");
                    (Some(line), proceed(self.rest, self.vars, self.work, self.required))
                } else {
                    line.append(": ");
                    line.append(info.explain_failure().as_str());
                    (Some(line), Check::Failed(BuildError::NotPie { path: self.path }))
                }
            },
        }
    }
}

// -- libraries ---------------------------------------------------------------

/// What comes next in a verification of libraries: its outcome, or a file to
/// inspect.
#[derive(Debug)]
pub enum LinkCheck {
    Passed,
    Failed(BuildError),
    Inspect(LinkInspection),
}

/// A file whose libraries are to be inspected.
#[derive(Debug)]
pub struct LinkInspection {
    pub file: Inspection,
    pub allowed: Vec<String>,
}

impl LinkCheck {
    /// How the verification goes on, whatever the libraries are.
    pub open spec fn files(self) -> Check {
        match self {
            LinkCheck::Passed => Check::Passed,
            LinkCheck::Failed(error) => Check::Failed(error),
            LinkCheck::Inspect(inspection) => Check::Inspect(inspection.file),
        }
    }
}

/// A library is allowed where one of the allowed names is how it begins.
pub open spec fn is_allowed(library: Seq<char>, allowed: Seq<Seq<char>>) -> bool {
    exists|i: int| 0 <= i < allowed.len() && (#[trigger] allowed[i]).is_prefix_of(library)
}

/// The libraries that are not allowed.
pub open spec fn unexpected(needed: Seq<Seq<char>>, allowed: Seq<Seq<char>>) -> Seq<Seq<char>> {
    needed.filter(|library: Seq<char>| !is_allowed(library, allowed))
}

/// `check` goes on with the first of the paths, and keeps the others for later.
pub open spec fn links_go_on(
    check: LinkCheck,
    paths: Seq<Seq<char>>,
    allowed: Seq<Seq<char>>,
    vars: Map<Seq<char>, Seq<char>>,
    work: Seq<char>,
) -> bool {
    &&& goes_on(check.files(), paths, vars, work, true)
    &&& check matches LinkCheck::Inspect(inspection) ==> crate::text::texts(inspection.allowed@)
        == allowed
}

/// Goes on with the first of the paths.
fn proceed_links(
    paths: Vec<String>,
    allowed: Vec<String>,
    vars: Vars,
    work: String,
) -> (check: LinkCheck)
    ensures
        links_go_on(
            check,
            crate::text::texts(paths@),
            crate::text::texts(allowed@),
            vars@,
            work@,
        ),
{
    match proceed(paths, vars, work, true) {
        Check::Passed => LinkCheck::Passed,
        Check::Failed(error) => LinkCheck::Failed(error),
        Check::Inspect(file) => LinkCheck::Inspect(LinkInspection { file, allowed }),
    }
}

/// Begins to verify that the files at `paths` need no libraries but those allowed.
pub fn verify_self_contained(
    paths: &Vec<String>,
    allowed: &Vec<String>,
    vars: &Vars,
    work: &str,
) -> (check: LinkCheck)
    ensures
        links_go_on(
            check,
            crate::text::texts(paths@),
            crate::text::texts(allowed@),
            vars@,
            work@,
        ),
{
    proceed_links(copy_texts(paths), copy_texts(allowed), vars.clone(), work.to_owned())
}

/// Whether a library is allowed.
fn allows(allowed: &Vec<String>, library: &str) -> (allows: bool)
    ensures
        allows == is_allowed(library@, crate::text::texts(allowed@)),
{
    let chars = chars_of(library);
    let ghost names = crate::text::texts(allowed@);
    let mut i: usize = 0;
    while i < allowed.len()
        invariant
            i <= allowed@.len(),
            chars@ == library@,
            names == crate::text::texts(allowed@),
            forall|j: int| 0 <= j < i ==> !(#[trigger] names[j]).is_prefix_of(library@),
        decreases allowed@.len() - i,
    {
        let prefix = chars_of(allowed[i].as_str());
        assert(prefix@ == names[i as int]);
        if begins_with(&chars, &prefix) {
            return true;
        }
        i += 1;
    }
    false
}

/// The libraries that are not allowed.
fn find_unexpected(needed: &Vec<String>, allowed: &Vec<String>) -> (found: Vec<String>)
    ensures
        crate::text::texts(found@) == unexpected(
            crate::text::texts(needed@),
            crate::text::texts(allowed@),
        ),
{
    let ghost all = crate::text::texts(needed@);
    let ghost pred = |library: Seq<char>| !is_allowed(library, crate::text::texts(allowed@));
    let mut found: Vec<String> = Vec::new();
    let mut i: usize = 0;
    reveal(Seq::filter);
    assert(all.take(0).filter(pred) =~= crate::text::texts(found@));
    while i < needed.len()
        invariant
            i <= needed@.len(),
            all == crate::text::texts(needed@),
            pred == (|library: Seq<char>| !is_allowed(library, crate::text::texts(allowed@))),
            crate::text::texts(found@) == all.take(i as int).filter(pred),
        decreases needed@.len() - i,
    {
        let ghost before = crate::text::texts(found@);
        assert(all.take(i + 1).drop_last() =~= all.take(i as int));
        assert(all[i as int] == needed@[i as int]@);
        if !allows(allowed, needed[i].as_str()) {
            found.push(needed[i].clone());
            assert(crate::text::texts(found@) =~= before.push(all[i as int]));
        }
        reveal(Seq::filter);
        i += 1;
    }
    assert(all.take(i as int) =~= all);
    found
}

impl LinkInspection {
    /// The libraries of the file at the path decide how the verification goes on.
    /// There is something to say of an image.
    pub fn judge(self, image: Result<ElfInfo, InspectError>) -> (judgement: (
        Option<String>,
        LinkCheck,
    ))
        ensures
            match image {
                Err(cause) => judgement.0 is None && judgement.1 == LinkCheck::Failed(
                    BuildError::Unreadable { fault: cause },
                ),
                Ok(info) => {
                    let found = unexpected(info@.needed, crate::text::texts(self.allowed@));
                    if found.len() == 0 {
                        &&& crate::text::text_of(judgement.0) == Some(
                            self.file.path@ + " needs only "@ + crate::text::join(
                                info@.needed,
                                ", "@,
                            ),
                        )
                        &&& links_go_on(
                            judgement.1,
                            crate::text::texts(self.file.rest@),
                            crate::text::texts(self.allowed@),
                            self.file.vars@,
                            self.file.work@,
                        )
                    } else {
                        &&& crate::text::text_of(judgement.0) == Some(
                            self.file.path@ + " links "@ + crate::text::join(found, ", "@)
                                + " which should have been static"@,
                        )
                        &&& judgement.1 matches LinkCheck::Failed(
                            BuildError::NotSelfContained { path },
                        ) && path@ == self.file.path@
                    }
                },
            },
    {
        let info = match image {
            Ok(info) => info,
            Err(fault) => {
                return (None, LinkCheck::Failed(BuildError::Unreadable { fault }));
            },
        };
        let found = find_unexpected(&info.needed, &self.allowed);
        let mut line = self.file.path.clone();
        if found.len() > 0 {
            line.append(" links ");
            line.append(join_texts(&found, ", ").as_str());
            line.append(" which should have been static");
            let error = BuildError::NotSelfContained { path: self.file.path };
            return (Some(line), LinkCheck::Failed(error));
        }
        line.append(" needs only ");
        line.append(join_texts(&info.needed, ", ").as_str());
        (Some(line), proceed_links(self.file.rest, self.allowed, self.file.vars, self.file.work))
    }
}

// -- laws --------------------------------------------------------------------

/// The inspections follow on each other, each after the file before it was found
/// to be in order.
pub open spec fn follow(inspections: Seq<Inspection>) -> bool {
    forall|k: int|
        0 <= k < inspections.len() - 1 ==> goes_on(
            Check::Inspect(#[trigger] inspections[k + 1]),
            crate::text::texts(inspections[k].rest@),
            inspections[k].vars@,
            inspections[k].work@,
            inspections[k].required,
        )
}

/// The inspection is of the file that a text of the recipe stands for.
pub open spec fn is_of(
    inspection: Inspection,
    path: Seq<char>,
    vars: Map<Seq<char>, Seq<char>>,
    work: Seq<char>,
) -> bool {
    match crate::template::expansion(vars, path) {
        Ok(expanded) => inspection.path@ == crate::path::joined(work, expanded),
        Err(_) => false,
    }
}

/// Files are inspected in the order of the recipe, and a verification passes only
/// after the last of them was found to be in order: none is left out.
pub proof fn law_every_path_is_inspected(
    paths: Seq<Seq<char>>,
    vars: Map<Seq<char>, Seq<char>>,
    work: Seq<char>,
    required: bool,
    inspections: Seq<Inspection>,
)
    requires
        inspections.len() > 0,
        goes_on(Check::Inspect(inspections[0]), paths, vars, work, required),
        follow(inspections),
    ensures
        forall|k: int|
            0 <= k < inspections.len() ==> k < paths.len() && is_of(
                #[trigger] inspections[k],
                paths[k],
                vars,
                work,
            ),
        goes_on(
            Check::Passed,
            crate::text::texts(inspections.last().rest@),
            inspections.last().vars@,
            inspections.last().work@,
            inspections.last().required,
        ) ==> inspections.len() == paths.len(),
{
    assert forall|k: int| 0 <= k < inspections.len() implies k < paths.len() && is_of(
        #[trigger] inspections[k],
        paths[k],
        vars,
        work,
    ) by {
        lemma_inspected(paths, vars, work, required, inspections, k);
    }
    lemma_inspected(paths, vars, work, required, inspections, inspections.len() - 1);
}

proof fn lemma_inspected(
    paths: Seq<Seq<char>>,
    vars: Map<Seq<char>, Seq<char>>,
    work: Seq<char>,
    required: bool,
    inspections: Seq<Inspection>,
    k: int,
)
    requires
        0 <= k < inspections.len(),
        goes_on(Check::Inspect(inspections[0]), paths, vars, work, required),
        follow(inspections),
    ensures
        k < paths.len(),
        is_of(inspections[k], paths[k], vars, work),
        crate::text::texts(inspections[k].rest@) == paths.skip(k + 1),
        inspections[k].vars@ == vars,
        inspections[k].work@ == work,
        inspections[k].required == required,
    decreases k,
{
    if k > 0 {
        lemma_inspected(paths, vars, work, required, inspections, k - 1);
        assert(goes_on(
            Check::Inspect(inspections[(k - 1) + 1]),
            crate::text::texts(inspections[k - 1].rest@),
            inspections[k - 1].vars@,
            inspections[k - 1].work@,
            inspections[k - 1].required,
        ));
        assert(paths.skip(k).drop_first() =~= paths.skip(k + 1));
    } else {
        assert(paths.drop_first() =~= paths.skip(1));
    }
}

/// The inspections of libraries follow on each other, each after the file before it
/// was found to be in order.
pub open spec fn links_follow(inspections: Seq<LinkInspection>) -> bool {
    forall|k: int|
        0 <= k < inspections.len() - 1 ==> links_go_on(
            LinkCheck::Inspect(#[trigger] inspections[k + 1]),
            crate::text::texts(inspections[k].file.rest@),
            crate::text::texts(inspections[k].allowed@),
            inspections[k].file.vars@,
            inspections[k].file.work@,
        )
}

/// The libraries of every file in the recipe are inspected, in their order, and held
/// against what the recipe allows.
pub proof fn law_every_linked_path_is_inspected(
    paths: Seq<Seq<char>>,
    allowed: Seq<Seq<char>>,
    vars: Map<Seq<char>, Seq<char>>,
    work: Seq<char>,
    inspections: Seq<LinkInspection>,
    k: int,
)
    requires
        0 <= k < inspections.len(),
        links_go_on(LinkCheck::Inspect(inspections[0]), paths, allowed, vars, work),
        links_follow(inspections),
    ensures
        k < paths.len(),
        is_of(inspections[k].file, paths[k], vars, work),
        crate::text::texts(inspections[k].allowed@) == allowed,
        crate::text::texts(inspections[k].file.rest@) == paths.skip(k + 1),
        inspections[k].file.vars@ == vars,
        inspections[k].file.work@ == work,
        inspections[k].file.required,
    decreases k,
{
    if k > 0 {
        law_every_linked_path_is_inspected(paths, allowed, vars, work, inspections, k - 1);
        assert(links_go_on(
            LinkCheck::Inspect(inspections[(k - 1) + 1]),
            crate::text::texts(inspections[k - 1].file.rest@),
            crate::text::texts(inspections[k - 1].allowed@),
            inspections[k - 1].file.vars@,
            inspections[k - 1].file.work@,
        ));
        assert(paths.skip(k).drop_first() =~= paths.skip(k + 1));
    } else {
        assert(paths.drop_first() =~= paths.skip(1));
    }
}

/// An executable that needs only what is allowed is self-contained, and one that
/// needs anything else is not.
pub proof fn law_only_allowed_libraries_pass(needed: Seq<Seq<char>>, allowed: Seq<Seq<char>>)
    ensures
        unexpected(needed, allowed).len() == 0 <==> forall|i: int|
            0 <= i < needed.len() ==> is_allowed(#[trigger] needed[i], allowed),
{
    let pred = |library: Seq<char>| !is_allowed(library, allowed);
    if unexpected(needed, allowed).len() == 0 {
        assert forall|i: int| 0 <= i < needed.len() implies is_allowed(
            #[trigger] needed[i],
            allowed,
        ) by {
            if !is_allowed(needed[i], allowed) {
                needed.lemma_filter_contains(pred, i);
            }
        }
    } else {
        let first = unexpected(needed, allowed)[0];
        assert(needed.filter(pred).contains(first));
        needed.lemma_filter_pred(pred, 0);
        needed.lemma_filter_contains_rev(pred, first);
        let i = choose|i: int| 0 <= i < needed.len() && needed[i] == first;
        assert(!is_allowed(needed[i], allowed));
    }
}

/// A verification goes on with the file that the next path leads to from the work
/// directory, after its placeholders are replaced; it passes only where no path is
/// left, and fails here only for a path without an expansion.
pub proof fn law_next_path_is_inspected(
    check: Check,
    paths: Seq<Seq<char>>,
    vars: Map<Seq<char>, Seq<char>>,
    work: Seq<char>,
    required: bool,
)
    requires
        goes_on(check, paths, vars, work, required),
    ensures
        check is Passed <==> paths.len() == 0,
        check is Failed ==> paths.len() > 0 && crate::template::expansion(vars, paths[0]) is Err,
        check matches Check::Inspect(inspection) ==> {
            &&& paths.len() > 0
            &&& crate::template::expansion(vars, paths[0]) is Ok
            &&& inspection.path@ == crate::path::joined(
                work,
                crate::template::expansion(vars, paths[0])->Ok_0,
            )
            &&& crate::text::texts(inspection.rest@) == paths.skip(1)
            &&& inspection.vars@ == vars
            &&& inspection.work@ == work
            &&& inspection.required == required
        },
{
    if paths.len() > 0 {
        assert(paths.drop_first() =~= paths.skip(1));
    }
}

/// The same holds where libraries are verified, which keeps the list of those that
/// are allowed; and there no file may be missing.
pub proof fn law_next_linked_path_is_inspected(
    check: LinkCheck,
    paths: Seq<Seq<char>>,
    allowed: Seq<Seq<char>>,
    vars: Map<Seq<char>, Seq<char>>,
    work: Seq<char>,
)
    requires
        links_go_on(check, paths, allowed, vars, work),
    ensures
        check is Passed <==> paths.len() == 0,
        check is Failed ==> paths.len() > 0 && crate::template::expansion(vars, paths[0]) is Err,
        check matches LinkCheck::Inspect(inspection) ==> {
            &&& paths.len() > 0
            &&& crate::template::expansion(vars, paths[0]) is Ok
            &&& inspection.file.path@ == crate::path::joined(
                work,
                crate::template::expansion(vars, paths[0])->Ok_0,
            )
            &&& crate::text::texts(inspection.file.rest@) == paths.skip(1)
            &&& crate::text::texts(inspection.allowed@) == allowed
            &&& inspection.file.vars@ == vars
            &&& inspection.file.work@ == work
            &&& inspection.file.required
        },
{
    if paths.len() > 0 {
        assert(paths.drop_first() =~= paths.skip(1));
    }
}

/// The libraries that are reported are those that no allowed name begins, all of them
/// and in their order.
pub proof fn law_unexpected_libraries_are_reported(
    needed: Seq<Seq<char>>,
    library: Seq<char>,
    allowed: Seq<Seq<char>>,
)
    ensures
        unexpected(Seq::empty(), allowed).len() == 0,
        unexpected(needed.push(library), allowed) == (if exists|i: int|
            0 <= i < allowed.len() && (#[trigger] allowed[i]).is_prefix_of(library) {
            unexpected(needed, allowed)
        } else {
            unexpected(needed, allowed).push(library)
        }),
{
    reveal(Seq::filter);
    needed.lemma_filter_push(library, |library: Seq<char>| !is_allowed(library, allowed));
}

} // verus!
