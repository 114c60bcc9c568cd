//! The site's own pages: the project list shown on the home page, where a
//! sign-in starts, and the notices of the home page.
use vstd::prelude::*;
use crate::text::{
    append_str, chars_eq, chars_of, has_prefix, is_blank, slice_chars, string_of, trim,
    trim_start_matches,
};

verus! {

/// A project shown on the home page.
#[derive(Debug)]
pub struct Project {
    pub slug: String,
    pub title: String,
    pub category: String,
    pub year: String,
    pub summary: String,
    pub image: String,
    pub alt: String,
    pub href: Option<String>,
}

/// Why the project list was refused.
#[derive(Debug)]
pub enum ProjectError {
    EmptyField,
    DuplicateSlug { slug: String },
    MissingImage { image: String },
}

/// The kind of a project's fault.
#[derive(Debug, Clone, Copy, PartialEq, Eq)]
pub enum ProjectFault {
    EmptyField,
    DuplicateSlug,
    MissingImage,
}

/// The fault of project `i`, given the earlier ones and whether its image
/// file exists.
pub open spec fn project_fault(ps: Seq<Project>, found: Seq<bool>, i: int) -> Option<ProjectFault> {
    let p = ps[i];
    if trim(p.slug@).len() == 0 || trim(p.title@).len() == 0 || trim(p.summary@).len() == 0
        || trim(p.alt@).len() == 0 {
        Some(ProjectFault::EmptyField)
    } else if exists|j: int| 0 <= j < i && ps[j].slug@ == p.slug@ {
        Some(ProjectFault::DuplicateSlug)
    } else if !found[i] {
        Some(ProjectFault::MissingImage)
    } else {
        None
    }
}

/// The first fault among the first `k` projects, with its position.
pub open spec fn first_fault(ps: Seq<Project>, found: Seq<bool>, k: int) -> Option<(int, ProjectFault)>
    decreases k,
{
    if k <= 0 {
        None
    } else {
        match first_fault(ps, found, k - 1) {
            Some(f) => Some(f),
            None => match project_fault(ps, found, k - 1) {
                Some(kind) => Some((k - 1, kind)),
                None => None,
            },
        }
    }
}

/// The file, under the static directory, of a project image address.
pub open spec fn image_asset_text(image: Seq<char>) -> Seq<char> {
    trim_start_matches(image, "/static/"@)
}

/// The message of a refusal.
pub open spec fn project_error_text(e: ProjectError) -> Seq<char> {
    match e {
        ProjectError::EmptyField => "project fields cannot be empty"@,
        ProjectError::DuplicateSlug { slug } => "duplicate project slug: "@ + slug@,
        ProjectError::MissingImage { image } => "missing project image: "@ + image@,
    }
}

impl ProjectError {
    /// The message of this refusal.
    pub fn message(&self) -> (r: String)
        ensures
            r@ == project_error_text(*self),
    {
        match self {
            ProjectError::EmptyField => string_of(&chars_of("project fields cannot be empty")),
            ProjectError::DuplicateSlug { slug } => {
                let mut v = chars_of("duplicate project slug: ");
                append_str(&mut v, slug.as_str());
                string_of(&v)
            },
            ProjectError::MissingImage { image } => {
                let mut v = chars_of("missing project image: ");
                append_str(&mut v, image.as_str());
                string_of(&v)
            },
        }
    }
}

/// The file, under the static directory, of the image address `image`:
/// every leading `/static/` removed.
pub fn image_asset(image: &str) -> (r: String)
    ensures
        r@ == image_asset_text(image@),
{
    let prefix = chars_of("/static/");
    proof {
        reveal_strlit("/static/");
    }
    let mut v = chars_of(image);
    while has_prefix(&v, &prefix)
        invariant
            prefix@ == "/static/"@,
            prefix@.len() == 8,
            trim_start_matches(v@, prefix@) == image_asset_text(image@),
        decreases v.len(),
    {
        v = slice_chars(&v, 8, v.len());
    }
    string_of(&v)
}

/// Checks the project list in order, given for each project whether its
/// image file exists: every project has a slug, title, summary and
/// alternative text, no slug repeats an earlier one, and every image exists.
/// The first fault found is the refusal.
pub fn check_projects(projects: &Vec<Project>, image_found: &Vec<bool>) -> (r: Result<
    (),
    ProjectError,
>)
    requires
        image_found.len() == projects.len(),
    ensures
        match r {
            Ok(()) => {
                &&& first_fault(projects@, image_found@, projects@.len() as int) is None
                &&& forall|i: int, j: int|
                    0 <= i < j < projects@.len() ==> projects@[i].slug@ != projects@[j].slug@
                &&& forall|i: int|
                    0 <= i < projects@.len() ==> image_found@[i] && trim(
                        #[trigger] projects@[i].slug@,
                    ).len() != 0
                &&& forall|i: int|
                    0 <= i < projects@.len() ==> {
                        &&& trim(#[trigger] projects@[i].title@).len() != 0
                        &&& trim(projects@[i].summary@).len() != 0
                        &&& trim(projects@[i].alt@).len() != 0
                    }
            },
            Err(e) => first_fault(projects@, image_found@, projects@.len() as int) matches Some(
                (i, kind),
            ) && match e {
                ProjectError::EmptyField => kind == ProjectFault::EmptyField,
                ProjectError::DuplicateSlug { slug } => kind == ProjectFault::DuplicateSlug
                    && slug@ == projects@[i].slug@,
                ProjectError::MissingImage { image } => kind == ProjectFault::MissingImage
                    && image@ == projects@[i].image@,
            },
        },
{
    let n = projects.len();
    let mut i: usize = 0;
    while i < n
        invariant
            i <= n == projects.len() == image_found.len(),
            first_fault(projects@, image_found@, i as int) is None,
            forall|a: int| 0 <= a < i ==> project_fault(projects@, image_found@, a) is None,
        decreases n - i,
    {
        let p = &projects[i];
        if is_blank(p.slug.as_str()) || is_blank(p.title.as_str()) || is_blank(p.summary.as_str())
            || is_blank(p.alt.as_str()) {
            proof {
                lemma_first_fault_stays(projects@, image_found@, i as int + 1, n as int);
            }
            return Err(ProjectError::EmptyField);
        }
        let slug = chars_of(p.slug.as_str());
        let mut j: usize = 0;
        while j < i
            invariant
                j <= i < n == projects.len() == image_found.len(),
                slug@ == projects@[i as int].slug@,
                trim(projects@[i as int].slug@).len() != 0,
                trim(projects@[i as int].title@).len() != 0,
                trim(projects@[i as int].summary@).len() != 0,
                trim(projects@[i as int].alt@).len() != 0,
                first_fault(projects@, image_found@, i as int) is None,
                forall|a: int| 0 <= a < i ==> project_fault(projects@, image_found@, a) is None,
                forall|b: int| 0 <= b < j ==> projects@[b].slug@ != slug@,
            decreases i - j,
        {
            if chars_eq(&chars_of(projects[j].slug.as_str()), &slug) {
                proof {
                    assert(projects@[j as int].slug@ == projects@[i as int].slug@);
                    assert(project_fault(projects@, image_found@, i as int) == Some(
                        ProjectFault::DuplicateSlug,
                    ));
                    assert(first_fault(projects@, image_found@, i as int + 1) == Some(
                        (i as int, ProjectFault::DuplicateSlug),
                    ));
                    lemma_first_fault_stays(projects@, image_found@, i as int + 1, n as int);
                }
                let dup = projects[i].slug.clone();
                assert(dup@ == projects@[i as int].slug@);
                return Err(ProjectError::DuplicateSlug { slug: dup });
            }
            j += 1;
        }
        if !image_found[i] {
            proof {
                lemma_first_fault_stays(projects@, image_found@, i as int + 1, n as int);
            }
            return Err(ProjectError::MissingImage { image: p.image.clone() });
        }
        i += 1;
    }
    proof {
        assert forall|a: int, b: int|
            0 <= a < b < projects@.len() implies projects@[a].slug@ != projects@[b].slug@ by {
            assert(project_fault(projects@, image_found@, b) is None);
        }
        assert forall|a: int|
            0 <= a < projects@.len() implies image_found@[a] && trim(
                #[trigger] projects@[a].slug@,
            ).len() != 0 by {
            assert(project_fault(projects@, image_found@, a) is None);
        }
        assert forall|a: int| 0 <= a < projects@.len() implies {
            &&& trim(#[trigger] projects@[a].title@).len() != 0
            &&& trim(projects@[a].summary@).len() != 0
            &&& trim(projects@[a].alt@).len() != 0
        } by {
            assert(project_fault(projects@, image_found@, a) is None);
        }
    }
    Ok(())
}

/// A project list without a fault is fit for the home page: every project
/// has a slug, a title, a summary and an alternative text that are not blank,
/// no two projects share a slug, and every image exists. One with a fault has
/// a project at fault, and no fault comes before the first one.
pub proof fn lemma_accepted_projects(ps: Seq<Project>, found: Seq<bool>)
    requires
        found.len() == ps.len(),
    ensures
        first_fault(ps, found, ps.len() as int) is None ==> {
            &&& forall|i: int|
                0 <= i < ps.len() ==> {
                    &&& trim(#[trigger] ps[i].slug@).len() > 0
                    &&& trim(ps[i].title@).len() > 0
                    &&& trim(ps[i].summary@).len() > 0
                    &&& trim(ps[i].alt@).len() > 0
                    &&& found[i]
                }
            &&& forall|i: int, j: int| 0 <= i < j < ps.len() ==> ps[i].slug@ != ps[j].slug@
        },
        (exists|i: int|
            0 <= i < ps.len() && (trim(#[trigger] ps[i].slug@).len() == 0 || trim(ps[i].title@).len()
                == 0 || trim(ps[i].summary@).len() == 0 || trim(ps[i].alt@).len() == 0
                || !found[i])) ==> first_fault(ps, found, ps.len() as int) is Some,
{
    lemma_no_fault_before(ps, found, ps.len() as int);
    if first_fault(ps, found, ps.len() as int) is None {
        assert forall|i: int| 0 <= i < ps.len() implies {
            &&& trim(#[trigger] ps[i].slug@).len() > 0
            &&& trim(ps[i].title@).len() > 0
            &&& trim(ps[i].summary@).len() > 0
            &&& trim(ps[i].alt@).len() > 0
            &&& found[i]
        } by {
            assert(project_fault(ps, found, i) is None);
        }
        assert forall|i: int, j: int| 0 <= i < j < ps.len() implies ps[i].slug@ != ps[j].slug@ by {
            assert(project_fault(ps, found, j) is None);
        }
    }
    if exists|i: int|
        0 <= i < ps.len() && (trim(#[trigger] ps[i].slug@).len() == 0 || trim(ps[i].title@).len()
            == 0 || trim(ps[i].summary@).len() == 0 || trim(ps[i].alt@).len() == 0 || !found[i]) {
        let i = choose|i: int|
            0 <= i < ps.len() && (trim(#[trigger] ps[i].slug@).len() == 0 || trim(ps[i].title@).len()
                == 0 || trim(ps[i].summary@).len() == 0 || trim(ps[i].alt@).len() == 0
                || !found[i]);
        assert(project_fault(ps, found, i) is Some);
    }
}

/// Where no fault comes among the first `k` projects, none of them is at
/// fault; where one of them is at fault, a first fault is found.
proof fn lemma_no_fault_before(ps: Seq<Project>, found: Seq<bool>, k: int)
    requires
        0 <= k <= ps.len(),
        found.len() == ps.len(),
    ensures
        first_fault(ps, found, k) is None <==> forall|i: int|
            0 <= i < k ==> #[trigger] project_fault(ps, found, i) is None,
    decreases k,
{
    if k > 0 {
        lemma_no_fault_before(ps, found, k - 1);
    }
}

/// A fault found among the first `k` projects is the first fault of all `m`.
proof fn lemma_first_fault_stays(ps: Seq<Project>, found: Seq<bool>, k: int, m: int)
    requires
        0 <= k <= m,
        first_fault(ps, found, k) is Some,
    ensures
        first_fault(ps, found, m) == first_fault(ps, found, k),
    decreases m - k,
{
    if k < m {
        lemma_first_fault_stays(ps, found, k + 1, m);
    }
}

/// Where a visitor who must sign in is sent, to come back to `return_to`.
pub fn login_path(return_to: &str) -> (r: String)
    ensures
        r@ == "/auth/discord?next="@ + return_to@,
{
    let mut v = chars_of("/auth/discord?next=");
    append_str(&mut v, return_to);
    string_of(&v)
}

/// The notices of the home page for its `auth` query value: whether sign-in
/// failed, and whether it was cancelled.
pub fn home_notices(auth: Option<&str>) -> (r: (bool, bool))
    ensures
        r.0 == (auth matches Some(a) && a@ == "error"@),
        r.1 == (auth matches Some(a) && a@ == "cancelled"@),
{
    match auth {
        Some(a) => {
            let v = chars_of(a);
            (chars_eq(&v, &chars_of("error")), chars_eq(&v, &chars_of("cancelled")))
        },
        None => (false, false),
    }
}

} // verus!
