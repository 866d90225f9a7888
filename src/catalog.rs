use vstd::prelude::*;

verus! {

/// Identifier of a row in the catalogue store.
pub type ID = i64;

/// A label that images can carry.
#[derive(Clone, Debug, PartialEq, Eq)]
pub struct Tag {
    pub id: ID,
    pub name: String,
    pub color: String,
}

impl Tag {
    pub fn new(id: ID, name: String, color: String) -> (r: Self)
        ensures
            r.id == id,
            r.name@ == name@,
            r.color@ == color@,
    {
        Tag { id, name, color }
    }
}

/// A catalogued image: its store id, file name, full path and tags.
#[derive(Clone, Debug, PartialEq, Eq)]
pub struct ImageData {
    pub id: ID,
    pub name: String,
    pub path: String,
    pub tags: Vec<Tag>,
}

/// What `std::path::Path::file_name` yields for a path: its last component,
/// unless that is `..` or the path ends in a root or prefix.
pub uninterp spec fn file_name_of(path: Seq<char>) -> Option<Seq<char>>;

/// Relies on `std::path::Path::file_name`. A `&str` path is valid UTF-8, so
/// its file name converts to a `String` unchanged.
#[verifier::external_body]
fn path_file_name(path: &str) -> (r: Option<String>)
    ensures
        r is Some <==> file_name_of(path@) is Some,
        r matches Some(n) ==> file_name_of(path@) == Some(n@),
{
    std::path::Path::new(path).file_name().map(|n| n.to_string_lossy().into_owned())
}

impl ImageData {
    /// The record for the image found at `path`, stored under `full_path`
    /// (the path made absolute by the caller). Its name is the file name of
    /// `path`; a path without one (`..`, a root) gives no record.
    pub fn new(id: ID, path: &str, full_path: String, tags: Vec<Tag>) -> (r: Option<Self>)
        ensures
            r is Some <==> file_name_of(path@) is Some,
            r matches Some(d) ==> {
                &&& d.id == id
                &&& file_name_of(path@) == Some(d.name@)
                &&& d.path@ == full_path@
                &&& d.tags@ == tags@
            },
    {
        match path_file_name(path) {
            Some(name) => Some(ImageData { id, name, path: full_path, tags }),
            None => None,
        }
    }
}

/// One row of the catalogue query: an image, and one of its tags if it has any.
pub struct ImageRow {
    pub image_id: ID,
    pub path: String,
    pub tag: Option<Tag>,
}

/// An image with all the tags that its rows carried.
pub struct ImageGroup {
    pub image_id: ID,
    pub path: String,
    pub tags: Vec<Tag>,
}

impl ImageGroup {
    pub open spec fn view(&self) -> (ID, Seq<char>, Seq<Tag>) {
        (self.image_id, self.path@, self.tags@)
    }
}

/// The tags a row contributes: its tag, if it has one.
pub open spec fn tag_seq(t: Option<Tag>) -> Seq<Tag> {
    match t {
        Some(t) => seq![t],
        None => seq![],
    }
}

/// The last position of a group for image `id`, or -1 if there is none.
pub open spec fn group_index(groups: Seq<(ID, Seq<char>, Seq<Tag>)>, id: ID) -> int
    decreases groups.len(),
{
    if groups.len() == 0 {
        -1
    } else if groups.last().0 == id {
        groups.len() - 1
    } else {
        group_index(groups.drop_last(), id)
    }
}

/// The rows gathered by image: a row joins the group of its image, adding its
/// tag there, or opens a new group with its path when its image has none yet.
/// Groups stand in the order in which their images first appear.
pub open spec fn grouped(rows: Seq<ImageRow>) -> Seq<(ID, Seq<char>, Seq<Tag>)>
    decreases rows.len(),
{
    if rows.len() == 0 {
        seq![]
    } else {
        let g = grouped(rows.drop_last());
        let r = rows.last();
        let k = group_index(g, r.image_id);
        if k >= 0 {
            g.update(k, (g[k].0, g[k].1, g[k].2 + tag_seq(r.tag)))
        } else {
            g.push((r.image_id, r.path@, tag_seq(r.tag)))
        }
    }
}

proof fn lemma_group_index_bounds(groups: Seq<(ID, Seq<char>, Seq<Tag>)>, id: ID)
    ensures
        -1 <= group_index(groups, id) < groups.len(),
        group_index(groups, id) >= 0 ==> groups[group_index(groups, id)].0 == id,
    decreases groups.len(),
{
    if groups.len() > 0 && groups.last().0 != id {
        lemma_group_index_bounds(groups.drop_last(), id);
    }
}

/// Position of the group for image `id` in `groups`, searching from the end.
fn find_group(groups: &Vec<ImageGroup>, id: ID) -> (r: Option<usize>)
    ensures
        r matches Some(k) ==> k as int == group_index(groups@.map_values(|g: ImageGroup| g.view()), id),
        r is None ==> group_index(groups@.map_values(|g: ImageGroup| g.view()), id) == -1,
{
    let ghost views = groups@.map_values(|g: ImageGroup| g.view());
    let mut k: usize = groups.len();
    proof {
        assert(views.take(k as int) =~= views);
    }
    while k > 0
        invariant
            k <= groups@.len(),
            views == groups@.map_values(|g: ImageGroup| g.view()),
            group_index(views, id) == group_index(views.take(k as int), id),
        decreases k,
    {
        if groups[k - 1].image_id == id {
            proof {
                assert(views.take(k as int).last() == views[k - 1]);
            }
            return Some(k - 1);
        }
        proof {
            assert(views.take(k as int).drop_last() =~= views.take(k - 1));
        }
        k = k - 1;
    }
    proof {
        assert(views.take(0) =~= Seq::<(ID, Seq<char>, Seq<Tag>)>::empty());
    }
    None
}

/// Gathers the rows of the catalogue query by image, as `grouped` says.
pub fn group_image_rows(rows: Vec<ImageRow>) -> (r: Vec<ImageGroup>)
    ensures
        r@.map_values(|g: ImageGroup| g.view()) == grouped(rows@),
{
    let ghost all = rows@;
    let mut groups: Vec<ImageGroup> = Vec::new();
    for row in it: rows.into_iter()
        invariant
            it.seq() == all,
            groups@.map_values(|g: ImageGroup| g.view()) == grouped(all.take(it.index() as int)),
    {
        let ghost i = it.index() as int;
        let ghost before = groups@.map_values(|g: ImageGroup| g.view());
        let ghost expected = grouped(all.take(i + 1));
        proof {
            assert(all.take(i + 1).drop_last() =~= all.take(i));
            assert(all.take(i + 1).last() == row);
            lemma_group_index_bounds(before, row.image_id);
        }
        match find_group(&groups, row.image_id) {
            Some(k) => {
                let ghost old_tags = groups@[k as int].tags@;
                if let Some(t) = row.tag {
                    groups[k].tags.push(t);
                }
                proof {
                    assert(groups@[k as int].tags@ =~= old_tags + tag_seq(row.tag));
                    assert(expected == before.update(
                        k as int,
                        (before[k as int].0, before[k as int].1, before[k as int].2 + tag_seq(row.tag)),
                    ));
                    assert(groups@.map_values(|g: ImageGroup| g.view()) =~= expected);
                }
            },
            None => {
                let mut tags: Vec<Tag> = Vec::new();
                if let Some(t) = row.tag {
                    tags.push(t);
                }
                proof {
                    assert(tags@ =~= tag_seq(row.tag));
                }
                groups.push(ImageGroup { image_id: row.image_id, path: row.path, tags });
                proof {
                    assert(groups@.map_values(|g: ImageGroup| g.view()) =~= expected);
                }
            },
        }
    }
    proof {
        assert(all.take(all.len() as int) =~= all);
    }
    groups
}

} // verus!
