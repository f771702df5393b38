//! The render-URL resolver: one batched request for all node ids, and the
//! lenient join of the response's id→URL map back onto the extracted names.
use vstd::prelude::*;

use crate::extractor::{spec_record_views, FigmaImageExtractor};

verus! {

/// Why an extraction cycle failed as a whole: the upstream call answered
/// with a non-success status, or its body failed the structural check
/// (no `images` map where one was owed).
#[derive(Clone, Copy, Debug, PartialEq, Eq, Structural)]
pub enum ApiError {
    Status(u16),
    MalformedResponse,
}

/// One join result: a node id, the render URL the service issued for it
/// (absent where the service answered `null`), and the node's name.
#[derive(Debug)]
pub struct RenderUrlEntry {
    pub id: String,
    pub url: Option<String>,
    pub name: String,
}

/// The one batched request of the resolver: every node id in one
/// comma-joined list, with the fixed raster format parameter.
pub struct RenderRequest {
    pub url: String,
    pub token: String,
    pub format: String,
    pub ids: String,
}

/// Holds of HTTP statuses that indicate success.
pub open spec fn spec_status_is_success(status: u16) -> bool {
    200 <= status < 300
}

/// Tells a success status from any other.
pub fn status_is_success(status: u16) -> (r: bool)
    ensures
        r == spec_status_is_success(status),
{
    200 <= status && status < 300
}

/// The comma-joined list of the given ids, in order, with nothing else.
pub open spec fn spec_csv(ids: Seq<Seq<char>>) -> Seq<char>
    decreases ids.len(),
{
    if ids.len() == 0 {
        Seq::empty()
    } else if ids.len() == 1 {
        ids[0]
    } else {
        spec_csv(ids.subrange(0, ids.len() - 1)) + seq![','] + ids[ids.len() - 1]
    }
}

/// The ids of the extracted records, in order.
pub open spec fn spec_id_views(nodes: Seq<(String, String)>) -> Seq<Seq<char>> {
    nodes.map_values(|p: (String, String)| p.0@)
}

/// Joins the ids of the extracted records with commas, for the one batched
/// request.
pub fn ids_csv(nodes: &Vec<(String, String)>) -> (r: String)
    ensures
        r@ == spec_csv(spec_id_views(nodes@)),
{
    let ghost ids = spec_id_views(nodes@);
    let mut out = String::new();
    let mut i: usize = 0;
    while i < nodes.len()
        invariant
            i <= nodes@.len(),
            ids == spec_id_views(nodes@),
            out@ == spec_csv(ids.subrange(0, i as int)),
        decreases nodes@.len() - i,
    {
        if i > 0 {
            out.append(",");
        }
        out.append(nodes[i].0.as_str());
        proof {
            reveal_strlit(",");
            assert(","@ =~= seq![',']);
            assert(ids.subrange(0, i + 1).subrange(0, i as int) =~= ids.subrange(0, i as int));
            assert(ids.subrange(0, i + 1)[i as int] == nodes@[i as int].0@);
            assert(out@ =~= spec_csv(ids.subrange(0, i + 1)));
        }
        i = i + 1;
    }
    proof {
        assert(ids.subrange(0, nodes@.len() as int) =~= ids);
    }
    out
}

impl FigmaImageExtractor {
    /// The single batched render-URL request for all the extracted nodes:
    /// however many nodes there are, their ids travel in this one request's
    /// comma-joined list, with the fixed `png` format parameter — never one
    /// request per node.
    pub fn build_render_request(&self, nodes: &Vec<(String, String)>) -> (req: RenderRequest)
        ensures
            req.url@ == self.api_url@ + "/"@ + "images"@ + "/"@ + self.config.figma_file_key@,
            req.token@ == self.config.figma_access_token@,
            req.format@ == "png"@,
            req.ids@ == spec_csv(spec_id_views(nodes@)),
    {
        RenderRequest {
            url: self.build_url("images"),
            token: self.config.figma_access_token.clone(),
            format: String::from_str("png"),
            ids: ids_csv(nodes),
        }
    }
}

/// Law: the one batched request carries every node id — each id of the
/// list stands somewhere in the comma-joined text, whatever the node count.
pub proof fn lemma_csv_carries_every_id(ids: Seq<Seq<char>>, i: int)
    requires
        0 <= i < ids.len(),
    ensures
        exists|k: int|
            0 <= k && k + ids[i].len() <= spec_csv(ids).len() && #[trigger] spec_csv(
                ids,
            ).subrange(k, k + ids[i].len()) == ids[i],
    decreases ids.len(),
{
    if ids.len() == 1 {
        assert(i == 0);
        assert(spec_csv(ids) == ids[0]);
        assert(spec_csv(ids).subrange(0, 0 + ids[i].len() as int) =~= ids[i]);
    } else {
        let front = ids.subrange(0, ids.len() - 1);
        let whole = spec_csv(ids);
        let prefix = spec_csv(front) + seq![','];
        assert(whole == prefix + ids[ids.len() - 1]);
        if i == ids.len() - 1 {
            let k = prefix.len() as int;
            assert(whole.subrange(k, k + ids[i].len()) =~= ids[i]);
        } else {
            lemma_csv_carries_every_id(front, i);
            let k = choose|k: int|
                0 <= k && k + front[i].len() <= spec_csv(front).len() && #[trigger] spec_csv(
                    front,
                ).subrange(k, k + front[i].len()) == front[i];
            assert(front[i] == ids[i]);
            assert(whole.subrange(k, k + ids[i].len()) =~= spec_csv(front).subrange(
                k,
                k + ids[i].len(),
            ));
        }
    }
}

/// The `(id, url)` views of the response's id→URL pairs.
pub open spec fn spec_image_views(images: Seq<(String, Option<String>)>) -> Seq<
    (Seq<char>, Option<Seq<char>>),
> {
    images.map_values(
        |p: (String, Option<String>)|
            (
                p.0@,
                match p.1 {
                    Some(u) => Some(u@),
                    None => None,
                },
            ),
    )
}

/// The views of the join results.
pub open spec fn spec_entry_views(es: Seq<RenderUrlEntry>) -> Seq<
    (Seq<char>, Option<Seq<char>>, Seq<char>),
> {
    es.map_values(
        |e: RenderUrlEntry|
            (
                e.id@,
                match e.url {
                    Some(u) => Some(u@),
                    None => None,
                },
                e.name@,
            ),
    )
}

/// The name of the first extracted record carrying the given id, if any.
pub open spec fn spec_find_name(nodes: Seq<(Seq<char>, Seq<char>)>, id: Seq<char>) -> Option<
    Seq<char>,
>
    decreases nodes.len(),
{
    if nodes.len() == 0 {
        None
    } else if nodes[0].0 == id {
        Some(nodes[0].1)
    } else {
        spec_find_name(nodes.subrange(1, nodes.len() as int), id)
    }
}

/// The lenient join: each response pair whose id belongs to an extracted
/// record becomes an entry carrying that record's name; response ids no
/// record claims are dropped, and records the response passes over are
/// dropped too — neither is reported as a failure.
pub open spec fn spec_join(
    images: Seq<(Seq<char>, Option<Seq<char>>)>,
    nodes: Seq<(Seq<char>, Seq<char>)>,
) -> Seq<(Seq<char>, Option<Seq<char>>, Seq<char>)>
    decreases images.len(),
{
    if images.len() == 0 {
        Seq::empty()
    } else {
        let rest = spec_join(images.subrange(0, images.len() - 1), nodes);
        let last = images[images.len() - 1];
        match spec_find_name(nodes, last.0) {
            Some(name) => rest + seq![(last.0, last.1, name)],
            None => rest,
        }
    }
}

/// Finds the name of the first extracted record with the given id, walking
/// the records in order.
pub fn find_name(nodes: &Vec<(String, String)>, id: &String) -> (r: Option<String>)
    ensures
        (match r {
            Some(name) => spec_find_name(spec_record_views(nodes@), id@) == Some(name@),
            None => spec_find_name(spec_record_views(nodes@), id@) is None,
        }),
{
    let ghost views = spec_record_views(nodes@);
    proof {
        assert(views.subrange(0, views.len() as int) =~= views);
    }
    let mut i: usize = 0;
    while i < nodes.len()
        invariant
            i <= nodes@.len(),
            views == spec_record_views(nodes@),
            spec_find_name(views, id@) == spec_find_name(
                views.subrange(i as int, views.len() as int),
                id@,
            ),
        decreases nodes@.len() - i,
    {
        let ghost tail = views.subrange(i as int, views.len() as int);
        if nodes[i].0 == *id {
            proof {
                assert(tail[0] == (nodes@[i as int].0@, nodes@[i as int].1@));
                assert(spec_find_name(tail, id@) == Some(nodes@[i as int].1@));
            }
            return Some(nodes[i].1.clone());
        }
        proof {
            assert(tail[0].0 != id@);
            assert(tail.subrange(1, tail.len() as int) =~= views.subrange(
                i + 1,
                views.len() as int,
            ));
        }
        i = i + 1;
    }
    proof {
        assert(views.subrange(nodes@.len() as int, views.len() as int) =~= Seq::<(
            Seq<char>,
            Seq<char>,
        )>::empty());
    }
    None
}

/// Joins the response's id→URL pairs back onto the extracted records.
pub fn join_render_urls(
    images: &Vec<(String, Option<String>)>,
    nodes: &Vec<(String, String)>,
) -> (r: Vec<RenderUrlEntry>)
    ensures
        spec_entry_views(r@) == spec_join(spec_image_views(images@), spec_record_views(nodes@)),
{
    let ghost iviews = spec_image_views(images@);
    let ghost nviews = spec_record_views(nodes@);
    let mut out: Vec<RenderUrlEntry> = Vec::new();
    let mut i: usize = 0;
    while i < images.len()
        invariant
            i <= images@.len(),
            iviews == spec_image_views(images@),
            nviews == spec_record_views(nodes@),
            spec_entry_views(out@) == spec_join(iviews.subrange(0, i as int), nviews),
        decreases images@.len() - i,
    {
        let ghost pre = out@;
        let id = &images[i].0;
        match find_name(nodes, id) {
            Some(name) => {
                let url: Option<String> = match &images[i].1 {
                    Some(u) => Some(u.clone()),
                    None => None,
                };
                out.push(RenderUrlEntry { id: id.clone(), url, name });
                proof {
                    assert(spec_entry_views(out@) =~= spec_entry_views(pre) + seq![
                        (iviews[i as int].0, iviews[i as int].1, spec_find_name(
                            nviews,
                            iviews[i as int].0,
                        )->0),
                    ]);
                }
            },
            None => {},
        }
        proof {
            assert(iviews.subrange(0, i + 1).subrange(0, i as int) =~= iviews.subrange(
                0,
                i as int,
            ));
            assert(iviews.subrange(0, i + 1)[i as int] == iviews[i as int]);
            assert(spec_entry_views(out@) =~= spec_join(iviews.subrange(0, i + 1), nviews));
        }
        i = i + 1;
    }
    proof {
        assert(iviews.subrange(0, images@.len() as int) =~= iviews);
    }
    out
}

/// Resolves one batched response: a non-success status fails the whole
/// cycle with `ApiError::Status`; a success status without the `images`
/// map fails it with `ApiError::MalformedResponse`; otherwise the join of
/// the map onto the extracted records is returned.
pub fn resolve_render_urls(
    status: u16,
    images: Option<&Vec<(String, Option<String>)>>,
    nodes: &Vec<(String, String)>,
) -> (r: Result<Vec<RenderUrlEntry>, ApiError>)
    ensures
        !spec_status_is_success(status) ==> (r matches Err(e) && e == ApiError::Status(status)),
        spec_status_is_success(status) && images is None ==> (r matches Err(e) && e
            == ApiError::MalformedResponse),
        spec_status_is_success(status) && images is Some ==> (r matches Ok(es)
            && spec_entry_views(es@) == spec_join(
            spec_image_views(images->0@),
            spec_record_views(nodes@),
        )),
{
    if !status_is_success(status) {
        return Err(ApiError::Status(status));
    }
    match images {
        None => Err(ApiError::MalformedResponse),
        Some(imgs) => Ok(join_render_urls(imgs, nodes)),
    }
}

} // verus!
