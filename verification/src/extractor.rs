//! Discovery of image nodes: the classifier and the stack-based tree
//! traversal, plus the request-URL construction for the two API endpoints.
use vstd::prelude::*;

use crate::config::FigmaConfig;
use crate::node::{
    lemma_forest_records_rev_concat, lemma_forest_size_concat, lemma_node_paths_agree,
    lemma_node_paths_distinct, lemma_node_records_complete, lemma_node_records_sound,
    spec_children, spec_forest_records_rev, spec_forest_size, spec_is_image_node, spec_node_emits,
    spec_node_record, spec_node_record_paths, spec_node_records, spec_node_size, spec_path_yields,
    spec_tree_contains, DocumentNode, FillType, NodeType,
};

verus! {

/// The `(id, name)` views of a list of extracted records.
pub open spec fn spec_record_views(rs: Seq<(String, String)>) -> Seq<(Seq<char>, Seq<char>)> {
    rs.map_values(|p: (String, String)| (p.0@, p.1@))
}

/// Walks a document tree and turns the image nodes into `(id, name)`
/// records; builds the URLs of the two API endpoints it reads.
pub struct FigmaImageExtractor {
    pub config: FigmaConfig,
    pub api_url: String,
}

impl FigmaImageExtractor {
    /// Builds an extractor that reads the production API.
    pub fn new(config: FigmaConfig) -> (e: Self)
        ensures
            e.config == config,
            e.api_url@ == "https://api.figma.com/v1"@,
    {
        FigmaImageExtractor { config, api_url: String::from_str("https://api.figma.com/v1") }
    }

    /// Builds an extractor that reads some other base URL (a test server).
    pub fn with_api_url(config: FigmaConfig, api_url: String) -> (e: Self)
        ensures
            e.config == config,
            e.api_url@ == api_url@,
    {
        FigmaImageExtractor { config, api_url }
    }

    /// The URL of one endpoint for the configured file:
    /// `{api}/{endpoint}/{fileKey}`.
    pub fn build_url(&self, endpoint: &str) -> (url: String)
        ensures
            url@ == self.api_url@ + "/"@ + endpoint@ + "/"@ + self.config.figma_file_key@,
    {
        let mut url = self.api_url.clone();
        url.append("/");
        url.append(endpoint);
        url.append("/");
        url.append(self.config.figma_file_key.as_str());
        url
    }

    /// The classifier: true when the node's own tag is `Image`, or when any
    /// entry of its fill list is an image fill. A node lacking the fill
    /// list does not match on that account. Pure; no error cases.
    pub fn is_image_node(node: &DocumentNode) -> (r: bool)
        ensures
            r == spec_is_image_node(*node),
    {
        if node.node_type == NodeType::Image {
            return true;
        }
        match &node.fills {
            Some(fills) => {
                let n = fills.len();
                let mut i: usize = 0;
                while i < n
                    invariant
                        i <= n,
                        n == fills@.len(),
                        node.fills is Some,
                        fills@ == node.fills->0@,
                        forall|j: int| 0 <= j < i ==> fills@[j].fill_type != FillType::Image,
                    decreases n - i,
                {
                    if fills[i].fill_type == FillType::Image {
                        proof {
                            assert(fills@[i as int].fill_type == FillType::Image);
                        }
                        return true;
                    }
                    i = i + 1;
                }
                false
            },
            None => false,
        }
    }

    /// Iterative depth-first traversal with an explicit work stack, so that
    /// the call stack stays flat however deep the document nests. Pops a
    /// node, records it if the classifier matches and both `id` and `name`
    /// are present, then pushes its children in document order — so the
    /// emitted order is the stack's pop order, not top-down document order.
    pub fn extract_image_nodes(document: DocumentNode) -> (result: Vec<(String, String)>)
        ensures
            spec_record_views(result@) == spec_node_records(document),
    {
        let ghost root = document;
        let mut result: Vec<(String, String)> = Vec::new();
        let mut stack: Vec<DocumentNode> = Vec::new();
        stack.push(document);
        proof {
            assert(spec_forest_records_rev(Seq::<DocumentNode>::empty()) =~= Seq::<(
                Seq<char>,
                Seq<char>,
            )>::empty());
            assert(stack@.subrange(0, 0) =~= Seq::<DocumentNode>::empty());
            assert(spec_record_views(result@) + spec_forest_records_rev(stack@)
                =~= spec_node_records(root));
        }
        while stack.len() > 0
            invariant
                spec_record_views(result@) + spec_forest_records_rev(stack@)
                    == spec_node_records(root),
            decreases spec_forest_size(stack@),
        {
            let ghost pre_stack = stack@;
            let ghost pre_result = result@;
            let node = stack.pop().unwrap();
            let ghost gnode = node;
            proof {
                assert(pre_stack[pre_stack.len() - 1] == gnode);
                assert(stack@ =~= pre_stack.subrange(0, pre_stack.len() - 1));
            }
            let matched = Self::is_image_node(&node);
            let DocumentNode { id, name, node_type: _, fills: _, children } = node;
            if matched && id.is_some() && name.is_some() {
                result.push((id.unwrap(), name.unwrap()));
                proof {
                    assert(spec_record_views(result@) =~= spec_record_views(pre_result)
                        + seq![spec_node_record(gnode)]);
                }
            } else {
                proof {
                    assert(!spec_node_emits(gnode));
                    assert(spec_record_views(result@) =~= spec_record_views(pre_result));
                }
            }
            let ghost mid_stack = stack@;
            match children {
                Some(mut cs) => {
                    let ghost gcs = cs@;
                    stack.append(&mut cs);
                    proof {
                        lemma_forest_records_rev_concat(mid_stack, gcs);
                        lemma_forest_size_concat(mid_stack, gcs);
                        assert(spec_children(gnode) == gcs);
                    }
                },
                None => {
                    proof {
                        assert(spec_children(gnode) =~= Seq::<DocumentNode>::empty());
                    }
                },
            }
            proof {
                assert(spec_forest_records_rev(pre_stack) == spec_node_records(gnode)
                    + spec_forest_records_rev(mid_stack));
                assert(spec_node_size(gnode) == 1 + spec_forest_size(spec_children(gnode)));
                assert(spec_forest_size(pre_stack) == spec_node_size(gnode)
                    + spec_forest_size(mid_stack));
                assert(spec_record_views(result@) + spec_forest_records_rev(stack@)
                    =~= spec_node_records(root));
            }
        }
        proof {
            assert(spec_forest_records_rev(stack@) =~= Seq::<(Seq<char>, Seq<char>)>::empty());
            assert(spec_record_views(result@) =~= spec_node_records(root));
        }
        result
    }
}

/// The set of ids of a list of extracted records.
pub open spec fn spec_extracted_ids(rs: Seq<(String, String)>) -> Set<Seq<char>> {
    Set::new(|id: Seq<char>| exists|i: int| 0 <= i < rs.len() && rs[i].0@ == id)
}

/// The set of ids of the emitting image nodes of a document: the nodes the
/// classifier matches that carry both an id and a name.
pub open spec fn spec_image_node_ids(root: DocumentNode) -> Set<Seq<char>> {
    Set::new(
        |id: Seq<char>|
            exists|m: DocumentNode|
                spec_tree_contains(root, m) && spec_node_emits(m) && m.id->0@ == id,
    )
}

/// Law: whatever `extract_image_nodes` returns holds exactly the ids of the
/// document's image nodes that carry both id and name — no omissions, and
/// nothing that is not such a node — however deeply the document nests.
pub proof fn lemma_extract_exactly_the_image_nodes(
    document: DocumentNode,
    result: Seq<(String, String)>,
)
    requires
        spec_record_views(result) == spec_node_records(document),
    ensures
        spec_extracted_ids(result) =~= spec_image_node_ids(document),
{
    lemma_node_records_sound(document);
    lemma_node_records_complete(document);
    assert forall|id: Seq<char>|
        spec_extracted_ids(result).contains(id) implies spec_image_node_ids(document).contains(
        id,
    ) by {
        let i = choose|i: int| 0 <= i < result.len() && result[i].0@ == id;
        assert(spec_record_views(result)[i] == spec_node_records(document)[i]);
        assert(spec_node_records(document).contains(spec_record_views(result)[i]));
        let m = choose|m: DocumentNode|
            spec_tree_contains(document, m) && spec_node_emits(m) && spec_node_record(m)
                == spec_record_views(result)[i];
        assert(m.id->0@ == id);
    }
    assert forall|id: Seq<char>|
        spec_image_node_ids(document).contains(id) implies spec_extracted_ids(result).contains(
        id,
    ) by {
        let m = choose|m: DocumentNode|
            spec_tree_contains(document, m) && spec_node_emits(m) && m.id->0@ == id;
        assert(spec_node_records(document).contains(spec_node_record(m)));
        let i = choose|i: int|
            0 <= i < spec_node_records(document).len() && spec_node_records(document)[i]
                == spec_node_record(m);
        assert(spec_record_views(result)[i] == spec_node_record(m));
        assert(result[i].0@ == id);
    }
}

/// The ids of a list of extracted records, in emission order.
pub open spec fn spec_extracted_id_seq(rs: Seq<(String, String)>) -> Seq<Seq<char>> {
    rs.map_values(|p: (String, String)| p.0@)
}

/// Law: the extracted list holds no duplicate id where the document's
/// image nodes carry pairwise-distinct ids — that is, where any two
/// distinct positions of the tree that emit a record disagree on the id.
/// (A document that repeats one id across two image nodes is left out:
/// there the extractor reports both occurrences, as the traversal does.)
pub proof fn lemma_extract_no_duplicate_ids(document: DocumentNode, result: Seq<(String, String)>)
    requires
        spec_record_views(result) == spec_node_records(document),
        forall|p1: Seq<int>, p2: Seq<int>, r1: (Seq<char>, Seq<char>), r2: (Seq<char>, Seq<char>)|
            #[trigger] spec_path_yields(document, p1, r1) && #[trigger] spec_path_yields(
                document,
                p2,
                r2,
            ) && p1 != p2 ==> r1.0 != r2.0,
    ensures
        spec_extracted_id_seq(result).no_duplicates(),
{
    lemma_node_paths_agree(document);
    lemma_node_paths_distinct(document);
    let ids = spec_extracted_id_seq(result);
    let records = spec_node_records(document);
    let paths = spec_node_record_paths(document);
    assert forall|a: int, b: int|
        0 <= a < ids.len() && 0 <= b < ids.len() && a != b implies ids[a] != ids[b] by {
        assert(spec_path_yields(document, paths[a], records[a]));
        assert(spec_path_yields(document, paths[b], records[b]));
        assert(paths[a] != paths[b]);
        assert(ids[a] == records[a].0);
        assert(ids[b] == records[b].0);
    }
}

} // verus!
