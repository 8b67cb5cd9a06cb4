//! The engine: a project's configuration, its semantic graph, the index of
//! what was read, and the language frontends that read files; indexing a
//! set of changed files, and finding the target of an impact query.

use vstd::prelude::*;
use crate::config::Config;
use crate::frontend::{detect_frontends, LanguageFrontend, ParseResult};
use crate::graph::{assoc_get, edges_avoiding, indices_of, SemanticGraph};
use crate::impact::ImpactResult;
use crate::index::{committed, ChangeKind, ChangedFile, Indexer};
use crate::ir::NodeId;
use crate::node::UsirNode;
use crate::numtext::{decimal, decimal_string};
use crate::pipeline::{file_nodes, nodes_for_file};
use crate::store::Direction;

verus! {

/// What one indexing pass did.
pub struct IndexResult {
    pub files_analyzed: usize,
    pub nodes_added: usize,
    pub edges_added: usize,
    pub links_resolved: usize,
    pub links_unresolved: usize,
    /// How long the pass took, in microseconds.
    pub duration_micros: u64,
}

/// The main engine: the entry point of every operation.
pub struct Engine {
    pub config: Config,
    pub graph: SemanticGraph,
    index: Indexer,
    frontends: Vec<Box<dyn LanguageFrontend>>,
    /// The next node id of each frontend, in the order they were registered.
    next_ids: Vec<u64>,
    /// The extensions each frontend reads, as it gave them when registered.
    extensions: Vec<Vec<String>>,
}

/// The extension lists one after another.
pub open spec fn flatten_lists(s: Seq<Seq<Seq<char>>>) -> Seq<Seq<char>>
    decreases s.len(),
{
    if s.len() == 0 {
        Seq::empty()
    } else {
        flatten_lists(s.drop_last()) + s.last()
    }
}

/// The first list, from the `i`-th on, that holds `ext`.
pub open spec fn first_reader(s: Seq<Seq<Seq<char>>>, ext: Seq<char>, i: int) -> Option<int>
    decreases s.len() - i,
{
    if i < 0 || i >= s.len() {
        None
    } else if s[i].contains(ext) {
        Some(i)
    } else {
        first_reader(s, ext, i + 1)
    }
}

/// The ids the graph holds for exactly this path (none when it has no
/// entry).
pub open spec fn path_ids(g: SemanticGraph, path: Seq<char>) -> Seq<NodeId> {
    match assoc_get(g.file_entries(), path) {
        Some(ids) => ids,
        None => Seq::empty(),
    }
}

/// The nodes of a file: those recorded under its path, else under its
/// canonical path (when there is one), else those of the first file whose
/// path ends with it or is a suffix of it.
pub open spec fn nodes_of_file(g: SemanticGraph, file: Seq<char>, canonical: Option<Seq<char>>) -> Seq<NodeId> {
    if path_ids(g, file).len() > 0 {
        path_ids(g, file)
    } else if canonical matches Some(c) && path_ids(g, c).len() > 0 {
        path_ids(g, canonical->0)
    } else {
        file_nodes(g, file)
    }
}

/// The node of id `id` is a function whose name ends with `name`.
pub open spec fn named_function(g: SemanticGraph, id: NodeId, name: Seq<char>) -> bool {
    g.lookup(id) matches Some(UsirNode::Function(f)) && f.name.segments@.len() > 0 && f.name.segments@.last()@ == name
}

/// The first of `ids` at or after `i` that is a function named `name`.
pub open spec fn first_named(g: SemanticGraph, ids: Seq<NodeId>, name: Seq<char>, i: int) -> Option<NodeId>
    decreases ids.len() - i,
{
    if i < 0 || i >= ids.len() {
        None
    } else if named_function(g, ids[i], name) {
        Some(ids[i])
    } else {
        first_named(g, ids, name, i + 1)
    }
}

/// "No symbols found in FILE (graph has N nodes)".
pub open spec fn no_symbols(file: Seq<char>, n: nat) -> Seq<char> {
    "No symbols found in "@ + file + " (graph has "@ + decimal(n) + " nodes)"@
}

/// "Function 'NAME' not found in FILE".
pub open spec fn not_found(name: Seq<char>, file: Seq<char>) -> Seq<char> {
    "Function '"@ + name + "' not found in "@ + file
}

/// What a target query gives: the node's id and a name to show, or the
/// error's text.
pub open spec fn target_of(g: SemanticGraph, file: Seq<char>, canonical: Option<Seq<char>>, fn_name: Option<Seq<char>>) -> Result<(NodeId, Seq<char>), Seq<char>> {
    let ids = nodes_of_file(g, file, canonical);
    if ids.len() == 0 {
        Err(no_symbols(file, g.nodes().len()))
    } else {
        match fn_name {
            Some(name) => match first_named(g, ids, name, 0) {
                Some(id) => Ok((id, name)),
                None => Err(not_found(name, file)),
            },
            None => Ok((
                ids[0],
                match g.lookup(ids[0]) {
                    Some(n) => n.name_spec().shown(),
                    None => "unknown"@,
                },
            )),
        }
    }
}

/// The node and edge counts of the graph once the nodes recorded for `path`
/// are removed, edges included.
pub open spec fn counts_without(g: SemanticGraph, path: Seq<char>) -> (nat, nat) {
    let gone = indices_of(g.indices(), path_ids(g, path));
    (g.nodes().remove_keys(gone).len(), edges_avoiding(g.edges(), gone).len())
}

/// Whether a graph of `nc` nodes and `ec` edges has room for `n` more nodes
/// and `e` more edges, each count staying below `u32::MAX`.
pub open spec fn has_room(n: nat, e: nat, nc: nat, ec: nat) -> bool {
    &&& n < 0xFFFF_FFFF
    &&& nc < 0xFFFF_FFFF - n
    &&& e < 0xFFFF_FFFF
    &&& ec < 0xFFFF_FFFF - e
}

/// The text of the error for a file the graph has no room for.
pub open spec fn no_room() -> Seq<char> {
    "the semantic graph has no room for the file"@
}

impl Engine {
    pub closed spec fn wf(&self) -> bool {
        &&& self.graph.wf()
        &&& self.index.wf()
        &&& self.extensions@.len() == self.next_ids@.len()
    }

    /// The extensions of each registered frontend, in registration order.
    pub closed spec fn extension_lists(&self) -> Seq<Seq<Seq<char>>> {
        self.extensions@.map_values(|v: Vec<String>| crate::text::views(v@))
    }

    /// The extension lists of the frontends that are held, in registration
    /// order.
    pub closed spec fn reader_lists(&self) -> Seq<Seq<Seq<char>>> {
        let l = self.extension_lists();
        if self.frontends@.len() < l.len() { l.take(self.frontends@.len() as int) } else { l }
    }

    /// The semantic graph.
    pub closed spec fn graph_view(&self) -> SemanticGraph {
        self.graph
    }

    /// The next node id of each registered frontend, in registration order.
    pub closed spec fn next_ids_view(&self) -> Seq<u64> {
        self.next_ids@
    }

    /// How many frontends are registered.
    pub closed spec fn frontend_count(&self) -> nat {
        self.next_ids@.len()
    }

    /// The content hashes the index knows, by path.
    pub closed spec fn hashes(&self) -> Map<Seq<char>, Seq<u8>> {
        self.index.hashes()
    }

    /// The project root the index was made for.
    pub closed spec fn root(&self) -> Seq<char> {
        self.index.root()
    }

    /// An engine for a project: an empty graph, an index that knows no file,
    /// and the frontends chosen for the project (see `detect_frontends`),
    /// numbering their nodes from 1, 100000 and 200000.
    pub fn init(project_root: &str, config: Config) -> (r: Result<Engine, String>)
        ensures
            r matches Ok(e) && e.wf() && e.root() == project_root@ && e.hashes().dom() =~= Set::<Seq<char>>::empty()
                && e.graph_view().nodes().dom() =~= Set::<u32>::empty() && e.frontend_count() == 3
                && e.next_ids_view() == seq![1u64, 100_000u64, 200_000u64],
    {
        let graph = SemanticGraph::new();
        let index = match Indexer::new(project_root) {
            Ok(ix) => ix,
            Err(e) => return Err(e),
        };
        let frontends = detect_frontends(project_root);
        let mut extensions: Vec<Vec<String>> = Vec::new();
        let mut i: usize = 0;
        while i < 3
            invariant
                i <= 3,
                frontends@.len() == 3,
                extensions@.len() == i,
            decreases 3 - i,
        {
            extensions.push(frontends[i].extensions());
            i = i + 1;
        }
        let next_ids: Vec<u64> = vec![1, 100_000, 200_000];
        let e = Engine { config, graph, index, frontends, next_ids, extensions };
        proof {
            assert(e.next_ids@ =~= seq![1u64, 100_000u64, 200_000u64]);
        }
        Ok(e)
    }

    /// Registers a frontend, whose node ids start at `first_id`.
    pub fn register_frontend(&mut self, frontend: Box<dyn LanguageFrontend>, first_id: u64)
        requires
            old(self).wf(),
        ensures
            final(self).wf(),
            final(self).frontend_count() == old(self).frontend_count() + 1,
            final(self).graph_view() == old(self).graph_view(),
            final(self).hashes() == old(self).hashes(),
            final(self).root() == old(self).root(),
            final(self).extension_lists().len() == old(self).extension_lists().len() + 1,
            final(self).extension_lists().drop_last() == old(self).extension_lists(),
    {
        let exts = frontend.extensions();
        let ghost before = self.extension_lists();
        self.extensions.push(exts);
        self.frontends.push(frontend);
        self.next_ids.push(first_id);
        proof {
            assert(self.extension_lists().drop_last() =~= before);
        }
    }

    /// How a file of that content compares with what the index last
    /// recorded: new, changed, or unchanged (`None`).
    pub fn change_kind_of(&self, path: &str, content: &[u8]) -> (r: Option<ChangeKind>)
        requires
            self.wf(),
        ensures
            r == crate::index::change_kind(self.hashes(), path@, content@),
    {
        self.index.change_kind_of(path, content)
    }

    /// The paths the index knows, each once.
    pub fn known_paths(&self) -> (r: Vec<String>)
        requires
            self.wf(),
        ensures
            crate::text::views(r@).no_duplicates(),
            forall|k: Seq<char>| crate::text::views(r@).contains(k) <==> self.hashes().dom().contains(k),
    {
        self.index.known_paths()
    }

    /// All the extensions of the registered frontends, frontend after
    /// frontend.
    pub fn all_extensions(&self) -> (r: Vec<String>)
        requires
            self.wf(),
        ensures
            crate::text::views(r@) == flatten_lists(self.reader_lists()),
    {
        let ghost lists = self.reader_lists();
        let n = if self.frontends.len() < self.extensions.len() { self.frontends.len() } else { self.extensions.len() };
        let mut out: Vec<String> = Vec::new();
        let mut i: usize = 0;
        while i < n
            invariant
                n == lists.len(),
                n <= self.extensions@.len(),
                lists == self.reader_lists(),
                i <= n,
                crate::text::views(out@) == flatten_lists(lists.take(i as int)),
            decreases n - i,
        {
            let mut exts = crate::text::copy_strings(&self.extensions[i]);
            let ghost before = out@;
            let ghost added = exts@;
            out.append(&mut exts);
            proof {
                assert(lists.take(i + 1).drop_last() =~= lists.take(i as int));
                assert(lists[i as int] == crate::text::views(added));
                assert(crate::text::views(out@) =~= crate::text::views(before) + crate::text::views(added));
            }
            i = i + 1;
        }
        proof {
            assert(lists.take(i as int) =~= lists);
        }
        out
    }

    /// The first registered frontend that reads files with the extension of
    /// `path`.
    fn frontend_for(&self, path: &str) -> (r: Option<usize>)
        requires
            self.wf(),
        ensures
            r matches Some(i) ==> i < self.frontends@.len(),
            match r {
                Some(i) => (crate::fixgen::path_extension(path@) matches Some(e)
                    && first_reader(self.reader_lists(), e, 0) == Some(i as int)),
                None => crate::fixgen::path_extension(path@) is None || (crate::fixgen::path_extension(path@) matches Some(e)
                    && first_reader(self.reader_lists(), e, 0) is None),
            },
    {
        let ext = match crate::fixgen::file_extension(path) {
            Some(e) => e,
            None => return None,
        };
        let ec = crate::text::chars_of(ext.as_str());
        let ghost lists = self.reader_lists();
        let n = if self.frontends.len() < self.extensions.len() { self.frontends.len() } else { self.extensions.len() };
        let mut i: usize = 0;
        while i < n
            invariant
                self.wf(),
                lists == self.reader_lists(),
                n == lists.len(),
                n <= self.extensions@.len(),
                n <= self.frontends@.len(),
                i <= n,
                crate::fixgen::path_extension(path@) == Some(ec@),
                first_reader(lists, ec@, 0) == first_reader(lists, ec@, i as int),
            decreases n - i,
        {
            let exts = &self.extensions[i];
            proof {
                assert(lists[i as int] == crate::text::views(exts@));
            }
            let mut j: usize = 0;
            while j < exts.len()
                invariant
                    j <= exts@.len(),
                    i < n,
                    n <= self.frontends@.len(),
                    n == lists.len(),
                    crate::fixgen::path_extension(path@) == Some(ec@),
                    first_reader(lists, ec@, 0) == first_reader(lists, ec@, i as int),
                    lists == self.reader_lists(),
                    lists[i as int] == crate::text::views(exts@),
                    forall|k: int| 0 <= k < j ==> (#[trigger] exts@[k])@ != ec@,
                decreases exts@.len() - j,
            {
                if crate::text::str_eq(&exts[j], ec.as_slice()) {
                    proof {
                        assert(lists[i as int][j as int] == ec@);
                        assert(lists[i as int].contains(ec@));
                    }
                    return Some(i);
                }
                j = j + 1;
            }
            proof {
                assert forall|k: int| 0 <= k < lists[i as int].len() implies lists[i as int][k] != ec@ by {
                    assert(lists[i as int][k] == exts@[k]@);
                }
            }
            i = i + 1;
        }
        None
    }

    /// Adds a parsed file to the graph, after removing what it held for the
    /// path; an error when the graph has no room left for its nodes or
    /// edges.
    fn add_parsed(&mut self, path: &String, parsed: ParseResult) -> (r: Result<(usize, usize), String>)
        requires
            old(self).wf(),
        ensures
            final(self).wf(),
            final(self).hashes() == old(self).hashes(),
            final(self).root() == old(self).root(),
            final(self).frontend_count() == old(self).frontend_count(),
            r is Ok <==> has_room(
                parsed.nodes@.len(),
                parsed.edges@.len(),
                counts_without(old(self).graph_view(), path@).0,
                counts_without(old(self).graph_view(), path@).1,
            ),
            r matches Ok((a, b)) ==> a == parsed.nodes@.len() && b == parsed.edges@.len()
                && final(self).graph_view().nodes().len() == counts_without(old(self).graph_view(), path@).0 + a,
            r matches Err(e) ==> e@ == no_room() && final(self).graph_view().nodes().len() == counts_without(
                old(self).graph_view(),
                path@,
            ).0,
    {
        self.graph.remove_file(path);
        let mut nodes = parsed.nodes;
        let mut edges = parsed.edges;
        let n_nodes = nodes.len();
        let n_edges = edges.len();
        let nc = self.graph.node_count();
        let ec = self.graph.edge_count();
        proof {
            assert(nc == counts_without(old(self).graph_view(), path@).0);
            assert(ec == counts_without(old(self).graph_view(), path@).1);
        }
        if n_nodes >= 0xFFFF_FFFF || nc >= 0xFFFF_FFFF - n_nodes || n_edges >= 0xFFFF_FFFF
            || ec >= 0xFFFF_FFFF - n_edges {
            let e = String::from_str("the semantic graph has no room for the file");
            proof {
                reveal_strlit("the semantic graph has no room for the file");
            }
            return Err(e);
        }
        while nodes.len() > 0
            invariant
                self.wf(),
                self.hashes() == old(self).hashes(),
                self.root() == old(self).root(),
                self.frontend_count() == old(self).frontend_count(),
                self.graph.nodes().len() + nodes@.len() == nc + n_nodes,
                nc + n_nodes < 0xFFFF_FFFF,
                self.graph.edges().len() == ec,
            decreases nodes@.len(),
        {
            let n = nodes.remove(0);
            let ghost before = self.graph.nodes();
            proof {
                self.graph.lemma_wf();
            }
            let id = self.graph.add_node(n);
            proof {
                let k = self.graph.indices()[id.0];
                assert(self.graph.nodes().dom() =~= before.dom().insert(k));
                vstd::set::axiom_set_insert_len(before.dom(), k);
            }
        }
        while edges.len() > 0
            invariant
                self.wf(),
                self.hashes() == old(self).hashes(),
                self.root() == old(self).root(),
                self.frontend_count() == old(self).frontend_count(),
                self.graph.edges().len() + edges@.len() <= ec + n_edges,
                ec + n_edges < 0xFFFF_FFFF,
                self.graph.nodes().len() == nc + n_nodes,
            decreases edges@.len(),
        {
            let e = edges.remove(0);
            let ghost before = self.graph.edges();
            proof {
                self.graph.lemma_wf();
            }
            let added = self.graph.add_edge(e);
            proof {
                match added {
                    Some(k) => {
                        assert(self.graph.edges().dom() =~= before.dom().insert(k));
                        vstd::set::axiom_set_insert_len(before.dom(), k);
                    },
                    None => {},
                }
            }
        }
        Ok((n_nodes, n_edges))
    }

    /// Indexes the changed files, one after another: a deleted file leaves
    /// the graph; any other file that a registered frontend reads and parses
    /// replaces what the graph held for its path. Then the index records the
    /// changes and the graph's calls are linked across files. With no change
    /// nothing happens. The counts are of the files parsed and of the nodes
    /// and edges they gave; the duration is the caller's measure.
    pub fn index(&mut self, changes: &Vec<ChangedFile>, duration_micros: u64) -> (r: Result<IndexResult, String>)
        requires
            old(self).wf(),
        ensures
            final(self).wf(),
            final(self).root() == old(self).root(),
            final(self).frontend_count() == old(self).frontend_count(),
            changes@.len() == 0 ==> {
                &&& r matches Ok(x) && x.files_analyzed == 0 && x.nodes_added == 0 && x.edges_added == 0
                    && x.links_resolved == 0 && x.links_unresolved == 0 && x.duration_micros == 0
                &&& final(self).graph_view() == old(self).graph_view()
                &&& final(self).hashes() == old(self).hashes()
            },
            changes@.len() > 0 ==> (r matches Ok(x) ==> {
                &&& final(self).hashes() == committed(old(self).hashes(), changes@)
                &&& x.files_analyzed <= changes@.len()
                &&& x.duration_micros == duration_micros
            }),
    {
        if changes.len() == 0 {
            return Ok(IndexResult {
                files_analyzed: 0,
                nodes_added: 0,
                edges_added: 0,
                links_resolved: 0,
                links_unresolved: 0,
                duration_micros: 0,
            });
        }
        let mut nodes_added: usize = 0;
        let mut edges_added: usize = 0;
        let mut files_analyzed: usize = 0;
        let mut i: usize = 0;
        while i < changes.len()
            invariant
                i <= changes@.len(),
                files_analyzed <= i,
                self.wf(),
                self.hashes() == old(self).hashes(),
                self.root() == old(self).root(),
                self.frontend_count() == old(self).frontend_count(),
            decreases changes@.len() - i,
        {
            let change = &changes[i];
            if change.kind == ChangeKind::Deleted {
                self.graph.remove_file(&change.path);
            } else {
                match self.frontend_for(change.path.as_str()) {
                    Some(f) => if f < self.next_ids.len() {
                        let mut next = self.next_ids[f];
                        let parsed = self.frontends[f].parse_file(change.path.as_str(), change.content.as_slice(), &mut next);
                        self.next_ids.set(f, next);
                        match parsed {
                            Ok(p) => {
                                let (a, b) = match self.add_parsed(&change.path, p) {
                                    Ok(x) => x,
                                    Err(e) => return Err(e),
                                };
                                nodes_added = nodes_added.saturating_add(a);
                                edges_added = edges_added.saturating_add(b);
                                files_analyzed = files_analyzed + 1;
                            },
                            Err(_) => {},
                        }
                    },
                    None => {},
                }
            }
            i = i + 1;
        }
        match self.index.commit_changes(changes) {
            Ok(()) => {},
            Err(e) => return Err(e),
        }
        let links = crate::linker::link(&mut self.graph);
        Ok(IndexResult {
            files_analyzed,
            nodes_added,
            edges_added,
            links_resolved: links.resolved,
            links_unresolved: links.unresolved,
            duration_micros,
        })
    }

    /// The nodes of a file (see `nodes_of_file`); `canonical` is the file's
    /// canonical path, when it has one.
    pub fn find_nodes_for_file(&self, file: &String, canonical: Option<&String>) -> (r: Vec<NodeId>)
        requires
            self.wf(),
        ensures
            r@ == nodes_of_file(self.graph_view(), file@, match canonical { Some(c) => Some(c@), None => None }),
    {
        let direct = self.graph.nodes_in_file(file);
        if direct.len() > 0 {
            return direct;
        }
        match canonical {
            Some(c) => {
                let nodes = self.graph.nodes_in_file(c);
                if nodes.len() > 0 {
                    return nodes;
                }
            },
            None => {},
        }
        nodes_for_file(&self.graph, file)
    }

    fn first_named_exec(&self, ids: &Vec<NodeId>, name: &str) -> (r: Option<NodeId>)
        requires
            self.wf(),
        ensures
            r == first_named(self.graph_view(), ids@, name@, 0),
    {
        let nc = crate::text::chars_of(name);
        let mut i: usize = 0;
        while i < ids.len()
            invariant
                i <= ids@.len(),
                self.wf(),
                nc@ == name@,
                first_named(self.graph, ids@, name@, 0) == first_named(self.graph, ids@, name@, i as int),
            decreases ids@.len() - i,
        {
            match self.graph.get_node(ids[i]) {
                Some(UsirNode::Function(f)) => {
                    let k = f.name.segments.len();
                    if k > 0 && crate::text::str_eq(&f.name.segments[k - 1], nc.as_slice()) {
                        return Some(ids[i]);
                    }
                },
                _ => {},
            }
            i = i + 1;
        }
        None
    }

    /// The target of an impact query: among the nodes of a file, the first
    /// function named `fn_name`, or the file's first node when no name is
    /// given; with a name to show (see `target_of`).
    pub fn find_target(&self, file: &String, canonical: Option<&String>, fn_name: Option<&str>) -> (r: Result<(NodeId, String), String>)
        requires
            self.wf(),
        ensures
            match target_of(self.graph_view(), file@, match canonical { Some(c) => Some(c@), None => None }, match fn_name { Some(n) => Some(n@), None => None }) {
                Ok((id, name)) => r matches Ok((i, n)) && i == id && n@ == name,
                Err(msg) => r matches Err(m) && m@ == msg,
            },
    {
        let nodes = self.find_nodes_for_file(file, canonical);
        if nodes.len() == 0 {
            let mut m = String::from_str("No symbols found in ");
            m.append(file.as_str());
            m.append(" (graph has ");
            m.append(decimal_string(self.graph.node_count() as u64).as_str());
            m.append(" nodes)");
            return Err(m);
        }
        match fn_name {
            Some(name) => match self.first_named_exec(&nodes, name) {
                Some(id) => Ok((id, String::from_str(name))),
                None => {
                    let mut m = String::from_str("Function '");
                    m.append(name);
                    m.append("' not found in ");
                    m.append(file.as_str());
                    Err(m)
                },
            },
            None => {
                let id = nodes[0];
                let name = match self.graph.get_node(id) {
                    Some(n) => n.name().display(),
                    None => String::from_str("unknown"),
                };
                Ok((id, name))
            },
        }
    }

    /// The impact of changing the target (see `find_target`): what reaches
    /// it within `depth` steps.
    pub fn impact(&self, file: &String, canonical: Option<&String>, fn_name: Option<&str>, depth: usize) -> (r: Result<ImpactResult, String>)
        requires
            self.wf(),
        ensures
            match target_of(self.graph_view(), file@, match canonical { Some(c) => Some(c@), None => None }, match fn_name { Some(n) => Some(n@), None => None }) {
                Ok((id, _)) => r matches Ok(x) && self.graph_view().impact_spec(id, depth as nat, Direction::Reverse, x),
                Err(msg) => r matches Err(m) && m@ == msg,
            },
    {
        match self.find_target(file, canonical, fn_name) {
            Ok((id, _)) => Ok(self.graph.impact_reverse(id, depth)),
            Err(e) => Err(e),
        }
    }
}

} // verus!
