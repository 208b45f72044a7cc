//! Finding and opening the file of a lesson.

use vstd::prelude::*;

use crate::engine::yaml::envelope::{is_record_file, law_a_record_file_opens_into_its_parts};
use crate::engine::yaml::frontmatter::{
    OwnedFrontmatterSplit, crlf_to_lf, split_frontmatter_normalized, split_of, without_char,
};
use crate::engine::yaml::schema::{LessonFrontmatter, LessonStatus};
use crate::path::{join, joined};
use crate::text::{concat2, has_prefix, same_text, starts_with, texts, to_chars};

verus! {

/// A lesson and where it was found.
#[derive(Debug, Clone, PartialEq, Eq)]
pub struct LoadedLesson {
    pub path: String,
    pub status_dir: String,
    pub frontmatter: LessonFrontmatter,
    pub body: String,
}

/// A lesson with everything in its file.
pub type LessonFullContent = LoadedLesson;

pub open spec fn is_ascii_alphanumeric(c: char) -> bool {
    'a' <= c <= 'z' || 'A' <= c <= 'Z' || '0' <= c <= '9'
}

/// `les-` and at least one more character, all of them letters, digits and hyphens.
pub open spec fn is_lesson_id(id: Seq<char>) -> bool {
    &&& has_prefix(id, "les-"@)
    &&& id.len() > 4
    &&& forall|i: int| 0 <= i < id.len() ==> is_ascii_alphanumeric(#[trigger] id[i]) || id[i] == '-'
}

/// Whether `id` has the form of the id of a lesson.
pub fn is_valid_lesson_id(id: &str) -> (b: bool)
    ensures
        b == is_lesson_id(id@),
{
    if !starts_with(id, "les-") {
        return false;
    }
    let chars = to_chars(id);
    if chars.len() <= 4 {
        return false;
    }
    let mut i: usize = 0;
    while i < chars.len()
        invariant
            chars@ == id@,
            i <= chars.len(),
            forall|j: int|
                0 <= j < i ==> is_ascii_alphanumeric(#[trigger] id@[j]) || id@[j] == '-',
        decreases chars.len() - i,
    {
        let c = chars[i];
        let alphanumeric = ('a' <= c && c <= 'z') || ('A' <= c && c <= 'Z') || ('0' <= c && c
            <= '9');
        if !alphanumeric && c != '-' {
            proof {
                assert(id@[i as int] == c);
            }
            return false;
        }
        i += 1;
    }
    true
}

/// The directory of the lessons with a status.
pub open spec fn status_dir_of(home: Seq<char>, status: Seq<char>) -> Seq<char> {
    joined(joined(home, "lessons"@), status)
}

/// The file of a lesson.
pub open spec fn lesson_path(home: Seq<char>, status: Seq<char>, id: Seq<char>) -> Seq<char> {
    joined(status_dir_of(home, status), id + ".md"@)
}

fn path_of(home: &str, status: &str, id: &str) -> (path: String)
    ensures
        path@ == lesson_path(home@, status@, id@),
{
    let lessons = join(home, "lessons");
    let dir = join(lessons.as_str(), status);
    let name = concat2(id, ".md");
    join(dir.as_str(), name.as_str())
}

/// The file of a lesson below the home directory. Fails where the id is not that of a lesson.
pub fn lesson_file_path(home: &str, status: &str, id: &str) -> (r: Result<String, String>)
    ensures
        match r {
            Ok(path) => is_lesson_id(id@) && path@ == lesson_path(home@, status@, id@),
            Err(m) => !is_lesson_id(id@) && m@ == "invalid lesson id: "@ + id@,
        },
{
    if !is_valid_lesson_id(id) {
        return Err(concat2("invalid lesson id: ", id));
    }
    Ok(path_of(home, status, id))
}

/// The statuses in the order in which their directories are searched.
pub open spec fn search_order() -> Seq<LessonStatus> {
    seq![
        LessonStatus::Pending,
        LessonStatus::Active,
        LessonStatus::Promoted,
        LessonStatus::Discarded,
        LessonStatus::Superseded,
    ]
}

/// A place where the file of a lesson may be.
#[derive(Debug, Clone, PartialEq, Eq)]
pub struct LessonLocation {
    pub status: LessonStatus,
    pub path: String,
}

/// The status at a place of the search.
fn searched_status(i: usize) -> (s: LessonStatus)
    requires
        i < 5,
    ensures
        s == search_order()[i as int],
{
    if i == 0 {
        LessonStatus::Pending
    } else if i == 1 {
        LessonStatus::Active
    } else if i == 2 {
        LessonStatus::Promoted
    } else if i == 3 {
        LessonStatus::Discarded
    } else {
        LessonStatus::Superseded
    }
}

/// Where the file of a lesson may be, in the order in which to look. An id that is not that of a
/// lesson is found nowhere.
pub fn lesson_locations(home: &str, id: &str) -> (places: Vec<LessonLocation>)
    ensures
        places@.len() == if is_lesson_id(id@) {
            5nat
        } else {
            0
        },
        forall|i: int|
            0 <= i < places@.len() ==> (#[trigger] places@[i]).status == search_order()[i]
                && places@[i].path@ == lesson_path(home@, search_order()[i].text(), id@),
{
    let mut places: Vec<LessonLocation> = Vec::new();
    if !is_valid_lesson_id(id) {
        return places;
    }
    let mut i: usize = 0;
    while i < 5
        invariant
            i <= 5,
            places@.len() == i,
            forall|j: int|
                0 <= j < i ==> (#[trigger] places@[j]).status == search_order()[j]
                    && places@[j].path@ == lesson_path(home@, search_order()[j].text(), id@),
        decreases 5 - i,
    {
        let status = searched_status(i);
        let path = path_of(home, status.as_str(), id);
        places.push(LessonLocation { status, path });
        i += 1;
    }
    places
}

/// Finds a lesson, given which files there are: the first place that has its file.
pub fn get_lesson_by_id(home: &str, id: &str, files: &Vec<String>) -> (r: Option<LessonLocation>)
    ensures
        match r {
            Some(found) => {
                &&& is_lesson_id(id@)
                &&& found.path@ == lesson_path(home@, found.status.text(), id@)
                &&& texts(files@).contains(found.path@)
                &&& exists|i: int|
                    {
                        &&& 0 <= i < 5
                        &&& #[trigger] search_order()[i] == found.status
                        &&& forall|j: int|
                            0 <= j < i ==> !texts(files@).contains(
                                lesson_path(home@, (#[trigger] search_order()[j]).text(), id@),
                            )
                    }
            },
            None => is_lesson_id(id@) ==> forall|j: int|
                0 <= j < 5 ==> !texts(files@).contains(
                    lesson_path(home@, (#[trigger] search_order()[j]).text(), id@),
                ),
        },
{
    let places = lesson_locations(home, id);
    for place in it: places
        invariant
            it.seq().len() == places@.len(),
            it.seq() == places@,
            places@.len() == 5 || (places@.len() == 0 && !is_lesson_id(id@)),
            places@.len() == 5 ==> is_lesson_id(id@),
            forall|i: int|
                0 <= i < places@.len() ==> (#[trigger] places@[i]).status == search_order()[i]
                    && places@[i].path@ == lesson_path(home@, search_order()[i].text(), id@),
            forall|j: int|
                0 <= j < it.index() ==> !texts(files@).contains(
                    lesson_path(home@, (#[trigger] search_order()[j]).text(), id@),
                ),
    {
        proof {
            assert(place == places@[it.index() as int]);
        }
        if holds_text(files, place.path.as_str()) {
            proof {
                assert(search_order()[it.index() as int] == place.status);
            }
            return Some(place);
        }
    }
    None
}

/// Whether a text is in a list.
fn holds_text(list: &Vec<String>, text: &str) -> (b: bool)
    ensures
        b == texts(list@).contains(text@),
{
    let ghost all = texts(list@);
    let mut i: usize = 0;
    while i < list.len()
        invariant
            i <= list.len(),
            all == texts(list@),
            forall|j: int| 0 <= j < i ==> #[trigger] all[j] != text@,
        decreases list.len() - i,
    {
        if same_text(list[i].as_str(), text) {
            proof {
                assert(all[i as int] == text@);
            }
            return true;
        }
        i += 1;
    }
    false
}

/// Splits the content of the file of a lesson at `path`.
pub fn open_lesson(path: &str, source: &str) -> (r: Result<OwnedFrontmatterSplit, String>)
    ensures
        match split_of(source@) {
            Ok((yaml, body)) => {
                &&& r is Ok
                &&& r->Ok_0.yaml@ == without_char(crlf_to_lf(yaml), '\r')
                &&& r->Ok_0.body@ == crlf_to_lf(body)
            },
            Err(_) => r is Err && r->Err_0@ == "splitting frontmatter for "@ + path@,
        },
{
    match split_frontmatter_normalized(source) {
        Ok(split) => Ok(split),
        Err(_) => Err(concat2("splitting frontmatter for ", path)),
    }
}

/// A lesson id never leads out of its directory: it holds neither a separator nor a dot.
pub proof fn law_lesson_ids_are_plain_names(id: Seq<char>)
    requires
        is_lesson_id(id),
    ensures
        !id.contains('/'),
        !id.contains('.'),
{
}

/// The id of a lesson is the prefix and at least one character; letters, digits and hyphens only.
pub proof fn law_lesson_ids_begin_alike(id: &str, b: bool, rest: Seq<char>)
    requires
        call_ensures(is_valid_lesson_id, (id,), b),
        id@ == "les-"@ + rest,
    ensures
        b <==> rest.len() > 0 && forall|i: int|
            0 <= i < rest.len() ==> {
                ||| 'a' <= #[trigger] rest[i] <= 'z'
                ||| 'A' <= rest[i] <= 'Z'
                ||| '0' <= rest[i] <= '9'
                ||| rest[i] == '-'
            },
{
    reveal_strlit("les-");
    assert(id@.subrange(0, 4) =~= "les-"@);
    assert forall|i: int| 0 <= i < rest.len() implies #[trigger] rest[i] == id@[i + 4] by {}
    if b {
        assert forall|i: int| 0 <= i < rest.len() implies {
            ||| 'a' <= #[trigger] rest[i] <= 'z'
            ||| 'A' <= rest[i] <= 'Z'
            ||| '0' <= rest[i] <= '9'
            ||| rest[i] == '-'
        } by {
            assert(is_ascii_alphanumeric(id@[i + 4]) || id@[i + 4] == '-');
        }
    } else if rest.len() > 0 {
        let i = choose|i: int|
            0 <= i < id@.len() && !(is_ascii_alphanumeric(#[trigger] id@[i]) || id@[i] == '-');
        assert(i >= 4);
        assert(rest[i - 4] == id@[i]);
    }
}

/// What does not begin with the prefix is no id of a lesson.
pub proof fn law_other_ids_are_no_lessons(id: &str, b: bool)
    requires
        call_ensures(is_valid_lesson_id, (id,), b),
        id@.len() < 4 || id@.take(4) != "les-"@,
    ensures
        !b,
{
    reveal_strlit("les-");
    if id@.len() >= 4 {
        assert(id@.take(4) =~= id@.subrange(0, 4));
    }
}

/// A lesson stands below its home, in the directory of its status.
pub proof fn law_lessons_stand_below_their_status(
    home: &str,
    status: &str,
    id: &str,
    r: Result<String, String>,
)
    requires
        call_ensures(lesson_file_path, (home, status, id), r),
        home@.len() > 0,
        home@.last() != '/',
        status@.len() > 0,
        status@[0] != '/',
        status@.last() != '/',
    ensures
        r is Ok <==> is_lesson_id(id@),
        r matches Ok(path) ==> path@ == home@ + "/lessons/"@ + status@ + "/"@ + id@ + ".md"@,
{
    if is_lesson_id(id@) {
        reveal_strlit("lessons");
        reveal_strlit("/lessons/");
        reveal_strlit("/");
        reveal_strlit("les-");
        reveal_strlit(".md");
        assert(id@.subrange(0, 4)[0] == 'l');
        let lessons = joined(home@, "lessons"@);
        assert(lessons =~= home@ + "/"@ + "lessons"@);
        assert(lessons.last() == 's');
        let dir = joined(lessons, status@);
        assert(dir == lessons + "/"@ + status@);
        assert(dir.last() == status@.last());
        let name = id@ + ".md"@;
        assert(name[0] == 'l');
        assert(joined(dir, name) == dir + "/"@ + name);
        assert(joined(dir, name) =~= home@ + "/lessons/"@ + status@ + "/"@ + id@ + ".md"@);
    }
}

/// A lesson is found in whatever status it stands. Where it stands in several, the pending one is
/// found first, then the active, promoted, discarded and superseded ones.
pub proof fn law_a_lesson_is_found_in_every_status(
    home: &str,
    id: &str,
    files: &Vec<String>,
    r: Option<LessonLocation>,
)
    requires
        call_ensures(get_lesson_by_id, (home, id, files), r),
        is_lesson_id(id@),
    ensures
        ({
            let all = texts(files@);
            let pending = all.contains(lesson_path(home@, "pending"@, id@));
            let active = all.contains(lesson_path(home@, "active"@, id@));
            let promoted = all.contains(lesson_path(home@, "promoted"@, id@));
            let discarded = all.contains(lesson_path(home@, "discarded"@, id@));
            let superseded = all.contains(lesson_path(home@, "superseded"@, id@));
            &&& r is Some <==> pending || active || promoted || discarded || superseded
            &&& pending ==> r->0.status == LessonStatus::Pending
            &&& !pending && active ==> r->0.status == LessonStatus::Active
            &&& !pending && !active && promoted ==> r->0.status == LessonStatus::Promoted
            &&& !pending && !active && !promoted && discarded ==> r->0.status
                == LessonStatus::Discarded
            &&& !pending && !active && !promoted && !discarded && superseded ==> r->0.status
                == LessonStatus::Superseded
            &&& r matches Some(found) ==> found.path@ == lesson_path(
                home@,
                found.status.text(),
                id@,
            )
        }),
{
    let order = search_order();
    assert(order[0] == LessonStatus::Pending && order[1] == LessonStatus::Active && order[2]
        == LessonStatus::Promoted && order[3] == LessonStatus::Discarded && order[4]
        == LessonStatus::Superseded);
    if let Some(found) = r {
        let i = choose|i: int|
            {
                &&& 0 <= i < 5
                &&& #[trigger] search_order()[i] == found.status
                &&& forall|j: int|
                    0 <= j < i ==> !texts(files@).contains(
                        lesson_path(home@, (#[trigger] search_order()[j]).text(), id@),
                    )
            };
        assert(order[i] == found.status);
    }
}

/// The file of a lesson opens into its two parts.
pub proof fn law_a_lesson_opens_into_its_parts(
    path: &str,
    source: &str,
    r: Result<OwnedFrontmatterSplit, String>,
    yaml: Seq<char>,
    body: Seq<char>,
)
    requires
        call_ensures(open_lesson, (path, source), r),
        is_record_file(source@, yaml, body),
    ensures
        r is Ok,
        r->Ok_0.yaml@ == yaml,
        r->Ok_0.body@ == body,
{
    law_a_record_file_opens_into_its_parts(source@, yaml, body);
}

/// A lesson is looked for in all five statuses, the pending one first and the superseded one last;
/// what is no id of a lesson is looked for nowhere.
pub proof fn law_a_lesson_is_looked_for_in_order(home: &str, id: &str, places: Vec<LessonLocation>)
    requires
        call_ensures(lesson_locations, (home, id), places),
    ensures
        !is_lesson_id(id@) ==> places@.len() == 0,
        is_lesson_id(id@) ==> {
            &&& places@.len() == 5
            &&& places@[0].status == LessonStatus::Pending
            &&& places@[1].status == LessonStatus::Active
            &&& places@[2].status == LessonStatus::Promoted
            &&& places@[3].status == LessonStatus::Discarded
            &&& places@[4].status == LessonStatus::Superseded
            &&& forall|i: int|
                0 <= i < 5 ==> (#[trigger] places@[i]).path@ == lesson_path(
                    home@,
                    places@[i].status.text(),
                    id@,
                )
        },
{
    if is_lesson_id(id@) {
        assert(places@[0].status == search_order()[0]);
        assert(places@[1].status == search_order()[1]);
        assert(places@[2].status == search_order()[2]);
        assert(places@[3].status == search_order()[3]);
        assert(places@[4].status == search_order()[4]);
    }
}

} // verus!
