//! Animation graphs: named states, each with an animation, and transitions
//! between them; a traversal finds a simple path between two states and
//! collects the animations of the transitions along it.
use vstd::prelude::*;

verus! {

/// The names of the states of a graph, each mapped to the index of its state.
#[verifier::external_body]
pub struct StateNames {
    map: bevy::utils::hashbrown::HashMap<String, usize>,
}

/// What a [`StateNames`] holds: each name, by its characters, mapped to a state index.
pub uninterp spec fn state_names_view(names: StateNames) -> Map<Seq<char>, usize>;

impl StateNames {
    /// Calls hashbrown's `HashMap::with_capacity`, which gives an empty map.
    #[verifier::external_body]
    fn with_capacity(capacity: usize) -> (empty: StateNames)
        ensures
            state_names_view(empty) =~= Map::empty(),
    {
        StateNames { map: bevy::utils::hashbrown::HashMap::with_capacity(capacity) }
    }

    /// Calls hashbrown's `HashMap::insert`: afterwards the name maps to the
    /// index, and the index it mapped to before, if any, is returned.
    #[verifier::external_body]
    fn insert(&mut self, name: String, index: usize) -> (previous: Option<usize>)
        ensures
            state_names_view(*final(self)) == state_names_view(*old(self)).insert(name@, index),
            previous == (if state_names_view(*old(self)).contains_key(name@) {
                Some(state_names_view(*old(self))[name@])
            } else {
                None
            }),
    {
        self.map.insert(name, index)
    }

    /// Calls hashbrown's `HashMap::get` and copies the index found, if any.
    #[verifier::external_body]
    fn get(&self, name: &String) -> (found: Option<usize>)
        ensures
            found == (if state_names_view(*self).contains_key(name@) {
                Some(state_names_view(*self)[name@])
            } else {
                None
            }),
    {
        self.map.get(name).copied()
    }
}

/// A state as an animation graph file describes it.
pub struct GlyphAnimationGraphStateMeta {
    pub name: String,
    pub animation: String,
}

/// A transition as an animation graph file describes it.
pub struct GlyphAnimationGraphTransitionMeta {
    pub from: String,
    pub to: String,
    pub animation: Option<String>,
}

/// The content of an animation graph file.
pub struct GlyphAnimationGraphMeta {
    pub states: Vec<GlyphAnimationGraphStateMeta>,
    pub transitions: Vec<GlyphAnimationGraphTransitionMeta>,
}

/// A state of a loaded graph: its name and the path of its animation.
pub struct GlyphAnimationGraphState {
    pub name: String,
    pub animation: String,
}

/// An edge of a loaded graph: the index of the state it leads to and the
/// animation, if any, that plays while it is taken.
pub struct GlyphAnimationGraphTransition {
    pub to: usize,
    pub animation: Option<String>,
}

/// The outcome of a traversal: the animations of the transitions on the path
/// found (`None` when no path was found) and the animation of the state the
/// traversal was asked from.
pub struct GlyphAnimationTransition {
    pub transitions: Option<Vec<String>>,
    pub destination: String,
}

/// Why a graph could not be built or traversed.
pub enum GlyphAnimationGraphError {
    /// Two states share a name.
    DuplicateStateName,
    /// A transition names a state that does not exist.
    InvalidTransitionState { name: String, from: String, to: String },
    /// A traversal names a state that does not exist.
    InvalidTraversalState,
}

/// A loaded animation graph.
pub struct GlyphAnimationGraphSource {
    state_names: StateNames,
    states: Vec<GlyphAnimationGraphState>,
    transitions: Vec<Vec<GlyphAnimationGraphTransition>>,
}

/// The index of the first state of `states` whose name is `name`.
pub open spec fn meta_state_index(
    states: Seq<GlyphAnimationGraphStateMeta>,
    name: Seq<char>,
) -> Option<int>
    decreases states.len(),
{
    if states.len() == 0 {
        None
    } else if states.last().name@ == name {
        match meta_state_index(states.drop_last(), name) {
            Some(i) => Some(i),
            None => Some(states.len() - 1),
        }
    } else {
        meta_state_index(states.drop_last(), name)
    }
}

/// No two states share a name.
pub open spec fn meta_names_unique(states: Seq<GlyphAnimationGraphStateMeta>) -> bool {
    forall|i: int, j: int|
        0 <= i < j < states.len() ==> #[trigger] states[i].name@ != #[trigger] states[j].name@
}

/// The state index that the `from` name of transition `k` resolves to.
pub open spec fn meta_from_index(meta: GlyphAnimationGraphMeta, k: int) -> Option<int> {
    meta_state_index(meta.states@, meta.transitions@[k].from@)
}

/// Every transition among the first `k` names an existing `from` state.
pub open spec fn meta_resolves_upto(meta: GlyphAnimationGraphMeta, k: int) -> bool {
    forall|j: int| 0 <= j < k ==> #[trigger] meta_from_index(meta, j) is Some
}

/// Building the graph indexes the list of edges, which has one entry per
/// transition, by the index of a transition's `from` state; this holds when
/// every such index that the build reaches is in range.
pub open spec fn meta_edge_lists_in_range(meta: GlyphAnimationGraphMeta) -> bool {
    meta_names_unique(meta.states@) ==> forall|k: int|
        0 <= k < meta.transitions@.len() && #[trigger] meta_resolves_upto(meta, k + 1)
            ==> meta_from_index(meta, k).unwrap() < meta.transitions@.len()
}

/// The edges that the first `k` transitions of `meta` give state `node`: a
/// transition from `node` leads back to `node` (the build looks up the
/// `from` name for both ends) with the transition's animation.
pub open spec fn meta_edges(meta: GlyphAnimationGraphMeta, k: int, node: int) -> Seq<
    (usize, Option<String>),
>
    decreases k,
{
    if k <= 0 {
        Seq::empty()
    } else {
        let before = meta_edges(meta, k - 1, node);
        if meta_from_index(meta, k - 1) == Some(node) {
            before.push((node as usize, meta.transitions@[k - 1].animation))
        } else {
            before
        }
    }
}

/// The animation that taking edge `e` adds.
pub open spec fn edge_animations(e: GlyphAnimationGraphTransition) -> Seq<String> {
    match e.animation {
        Some(a) => seq![a],
        None => Seq::empty(),
    }
}

/// Every element of `s` is below `n`.
pub open spec fn all_below(s: Seq<usize>, n: int) -> bool {
    forall|i: int| 0 <= i < s.len() ==> #[trigger] s[i] < n
}

/// A distinct sequence of numbers below `n` has at most `n` elements.
proof fn lemma_distinct_below_len(s: Seq<usize>, n: int)
    requires
        s.no_duplicates(),
        all_below(s, n),
        n >= 0,
    ensures
        s.len() <= n,
    decreases n,
{
    if n == 0 {
        if s.len() > 0 {
            assert(s[0] < 0);
        }
    } else if exists|i: int| 0 <= i < s.len() && s[i] == n - 1 {
        let i = choose|i: int| 0 <= i < s.len() && s[i] == n - 1;
        let r = s.remove(i);
        assert forall|a: int, b: int| 0 <= a < r.len() && 0 <= b < r.len() && a != b implies r[a]
            != r[b] by {
            let sa = if a < i { a } else { a + 1 };
            let sb = if b < i { b } else { b + 1 };
            assert(r[a] == s[sa] && r[b] == s[sb]);
        }
        assert forall|a: int| 0 <= a < r.len() implies #[trigger] r[a] < n - 1 by {
            let sa = if a < i { a } else { a + 1 };
            assert(r[a] == s[sa]);
            assert(sa != i);
        }
        lemma_distinct_below_len(r, n - 1);
    } else {
        assert forall|a: int| 0 <= a < s.len() implies #[trigger] s[a] < n - 1 by {
            assert(s[a] != n - 1);
        }
        lemma_distinct_below_len(s, n - 1);
    }
}

impl GlyphAnimationGraphSource {
    /// The number of edge lists, which bounds the state indices that a
    /// traversal can visit.
    pub closed spec fn node_count(self) -> int {
        self.transitions@.len() as int
    }

    /// The edges leaving `node`.
    pub closed spec fn edges(self, node: int) -> Seq<GlyphAnimationGraphTransition> {
        self.transitions@[node]@
    }

    /// The names map each state's name to its index and nothing else, and
    /// every edge leads to a state below both counts.
    #[verifier::type_invariant]
    pub closed spec fn wf(self) -> bool {
        &&& forall|i: int|
            0 <= i < self.states@.len() ==> #[trigger] state_names_view(self.state_names).contains_key(
                self.states@[i].name@,
            ) && state_names_view(self.state_names)[self.states@[i].name@] == i
        &&& forall|k: Seq<char>| #[trigger]
            state_names_view(self.state_names).contains_key(k) ==> state_names_view(
                self.state_names,
            )[k] < self.states@.len() && self.states@[state_names_view(
                self.state_names,
            )[k] as int].name@ == k
        &&& forall|n: int, i: int|
            0 <= n < self.node_count() && 0 <= i < self.edges(n).len() ==> #[trigger] self.edges(
                n,
            )[i].to < self.node_count() && self.edges(n)[i].to < self.states@.len()
    }

    /// The number of states.
    pub closed spec fn state_count(self) -> int {
        self.states@.len() as int
    }

    /// The index of the state named `name`, if there is one.
    pub closed spec fn state_index(self, name: Seq<char>) -> Option<usize> {
        if state_names_view(self.state_names).contains_key(name) {
            Some(state_names_view(self.state_names)[name])
        } else {
            None
        }
    }

    /// The depth-first search that a traversal performs: from the last state
    /// of `path`, the edges are tried in order, each to a state not on the
    /// path yet; the first path that reaches `dest` gives `anims` followed by
    /// the animations of its edges.
    pub open spec fn search(self, dest: usize, path: Seq<usize>, anims: Seq<String>) -> Option<
        Seq<String>,
    >
        decreases self.node_count() - path.len(), (if path.len() > 0 && path.last()
            < self.node_count() {
            self.edges(path.last() as int).len()
        } else {
            0
        }) + 1,
    {
        if path.len() == 0 {
            None
        } else if path.last() == dest {
            Some(anims)
        } else if path.last() < self.node_count() {
            self.search_from(dest, path, anims, 0)
        } else {
            None
        }
    }

    /// The search over the edges of the last state of `path` from edge `i` on.
    pub open spec fn search_from(
        self,
        dest: usize,
        path: Seq<usize>,
        anims: Seq<String>,
        i: int,
    ) -> Option<Seq<String>>
        decreases self.node_count() - path.len(), self.edges(path.last() as int).len() - i,
    {
        if path.len() == 0 || i < 0 || i >= self.edges(path.last() as int).len() {
            None
        } else {
            let e = self.edges(path.last() as int)[i];
            let first = if !path.contains(e.to) && path.len() < self.node_count() {
                self.search(dest, path.push(e.to), anims + edge_animations(e))
            } else {
                None
            };
            if first is Some {
                first
            } else {
                self.search_from(dest, path, anims, i + 1)
            }
        }
    }

    /// The graph is the one that `meta` describes: its states in order, its
    /// names map, and for each edge list the edges of [`meta_edges`].
    pub open spec fn built_from(self, meta: GlyphAnimationGraphMeta) -> bool {
        &&& self.state_count() == meta.states@.len()
        &&& forall|i: int|
            0 <= i < meta.states@.len() ==> #[trigger] self.state_name(i) == meta.states@[i].name
                && self.state_animation(i) == meta.states@[i].animation
                && self.state_index(meta.states@[i].name@) == Some(i as usize)
        &&& forall|name: Seq<char>| #[trigger]
            self.state_index(name) == match meta_state_index(meta.states@, name) {
                Some(i) => Some(i as usize),
                None => None,
            }
        &&& self.node_count() == meta.transitions@.len()
        &&& forall|n: int|
            0 <= n < self.node_count() ==> #[trigger] self.edges(n).len() == meta_edges(
                meta,
                meta.transitions@.len() as int,
                n,
            ).len() && forall|i: int|
                0 <= i < self.edges(n).len() ==> (#[trigger] self.edges(n)[i]).to == meta_edges(
                    meta,
                    meta.transitions@.len() as int,
                    n,
                )[i].0 && self.edges(n)[i].animation == meta_edges(
                    meta,
                    meta.transitions@.len() as int,
                    n,
                )[i].1
    }

    /// A traversal from `src` to `dest` stays in bounds: `src` is a state,
    /// and unless it is `dest` it has an edge list.
    pub open spec fn traversable(self, src: usize, dest: usize) -> bool {
        &&& src < self.state_count()
        &&& src != dest ==> src < self.node_count()
    }
}

/// Loads animation graphs from `.agraph.ron` files.
pub struct GlyphAnimationGraphAssetLoader {}

impl GlyphAnimationGraphAssetLoader {
    /// The file extensions the loader takes.
    pub fn extensions(&self) -> (extensions: &'static [&'static str])
        ensures
            extensions@.len() == 1,
            extensions@[0]@ == "agraph.ron"@,
    {
        &["agraph.ron"]
    }

    /// Builds a graph from the content of a graph file, with each state's
    /// animation and each transition's animation kept as its path.
    #[verifier::spinoff_prover]
    pub fn load_meta(&self, meta: GlyphAnimationGraphMeta) -> (res: Result<GlyphAnimationGraphSource, GlyphAnimationGraphError>)
        requires
            meta_edge_lists_in_range(meta),
        ensures
            !meta_names_unique(meta.states@) <==> res matches Err(
                GlyphAnimationGraphError::DuplicateStateName,
            ),
            res matches Err(GlyphAnimationGraphError::InvalidTransitionState { name, from, to })
                ==> exists|k: int|
                0 <= k < meta.transitions@.len() && meta_resolves_upto(meta, k) && meta_from_index(
                    meta,
                    k,
                ) is None && name@ == meta.transitions@[k].from@ && from@
                    == meta.transitions@[k].from@ && to@ == meta.transitions@[k].to@,
            res is Ok <==> meta_names_unique(meta.states@) && meta_resolves_upto(
                meta,
                meta.transitions@.len() as int,
            ),
            !(res matches Err(GlyphAnimationGraphError::InvalidTraversalState)),
            res matches Ok(g) ==> g.built_from(meta),
    {
        let n_states = meta.states.len();
        let n_transitions = meta.transitions.len();
        let mut states: Vec<GlyphAnimationGraphState> = Vec::with_capacity(n_states);
        let mut state_names = StateNames::with_capacity(n_states);
        let mut s: usize = 0;
        while s < n_states
            invariant
                s <= n_states,
                n_states == meta.states@.len(),
                states@.len() == s,
                meta_names_unique(meta.states@.subrange(0, s as int)),
                forall|i: int|
                    0 <= i < s ==> #[trigger] states@[i].name == meta.states@[i].name
                        && states@[i].animation == meta.states@[i].animation,
                forall|i: int|
                    0 <= i < s ==> #[trigger] state_names_view(state_names).contains_key(
                        meta.states@[i].name@,
                    ) && state_names_view(state_names)[meta.states@[i].name@] == i,
                forall|k: Seq<char>| #[trigger]
                    state_names_view(state_names).contains_key(k) ==> state_names_view(
                        state_names,
                    )[k] < s && meta.states@[state_names_view(state_names)[k] as int].name@ == k,
            decreases n_states - s,
        {
            let name = meta.states[s].name.clone();
            let animation = meta.states[s].animation.clone();
            let key = name.clone();
            let ghost before = state_names_view(state_names);
            let previous = state_names.insert(key, s);
            if previous.is_some() {
                proof {
                    let j = before[name@] as int;
                    assert(meta.states@[j].name@ == meta.states@[s as int].name@);
                    assert(!meta_names_unique(meta.states@));
                }
                return Err(GlyphAnimationGraphError::DuplicateStateName);
            }
            proof {
                let sub = meta.states@.subrange(0, s + 1);
                assert forall|i: int, j: int| 0 <= i < j < s + 1 implies #[trigger] sub[i].name@
                    != #[trigger] sub[j].name@ by {
                    if j < s {
                        assert(meta.states@.subrange(0, s as int)[i] == sub[i]);
                        assert(meta.states@.subrange(0, s as int)[j] == sub[j]);
                    } else {
                        assert(before.contains_key(meta.states@[i].name@));
                    }
                }
            }
            states.push(GlyphAnimationGraphState { name, animation });
            s = s + 1;
        }
        proof {
            assert(meta.states@.subrange(0, n_states as int) =~= meta.states@);
            lemma_meta_state_index(meta.states@);
            assert forall|name: Seq<char>| #[trigger] state_names_view(state_names).contains_key(
                name,
            ) <==> meta_state_index(meta.states@, name) is Some by {
                if meta_state_index(meta.states@, name) is Some {
                    let i = meta_state_index(meta.states@, name).unwrap();
                    assert(meta.states@[i].name@ == name);
                }
            }
        }
        let mut transitions: Vec<Vec<GlyphAnimationGraphTransition>> = Vec::new();
        let mut t: usize = 0;
        while t < n_transitions
            invariant
                t <= n_transitions,
                transitions@.len() == t,
                forall|i: int| 0 <= i < t ==> (#[trigger] transitions@[i])@.len() == 0,
            decreases n_transitions - t,
        {
            transitions.push(Vec::new());
            t = t + 1;
        }
        let mut k: usize = 0;
        while k < n_transitions
            invariant
                k <= n_transitions,
                n_transitions == meta.transitions@.len(),
                n_states == meta.states@.len(),
                states@.len() == n_states,
                transitions@.len() == n_transitions,
                meta_edge_lists_in_range(meta),
                meta_names_unique(meta.states@),
                meta_resolves_upto(meta, k as int),
                forall|i: int|
                    0 <= i < n_states ==> #[trigger] states@[i].name == meta.states@[i].name
                        && states@[i].animation == meta.states@[i].animation,
                forall|i: int|
                    0 <= i < n_states ==> #[trigger] state_names_view(state_names).contains_key(
                        meta.states@[i].name@,
                    ) && state_names_view(state_names)[meta.states@[i].name@] == i,
                forall|k: Seq<char>| #[trigger]
                    state_names_view(state_names).contains_key(k) ==> state_names_view(
                        state_names,
                    )[k] < n_states && meta.states@[state_names_view(state_names)[k] as int].name@ == k,
                forall|name: Seq<char>| #[trigger] state_names_view(state_names).contains_key(name)
                    <==> meta_state_index(meta.states@, name) is Some,
                forall|name: Seq<char>| #[trigger] state_names_view(state_names).contains_key(name)
                    ==> meta_state_index(meta.states@, name) == Some(
                    state_names_view(state_names)[name] as int,
                ),
                forall|n: int|
                    0 <= n < n_transitions ==> #[trigger] transitions@[n]@.len() == meta_edges(
                        meta,
                        k as int,
                        n,
                    ).len() && forall|i: int|
                        0 <= i < transitions@[n]@.len() ==> (#[trigger] transitions@[n]@[i]).to
                            == meta_edges(meta, k as int, n)[i].0 && transitions@[n]@[i].animation
                            == meta_edges(meta, k as int, n)[i].1,
            decreases n_transitions - k,
        {
            let from = state_names.get(&meta.transitions[k].from);
            match from {
                None => {
                    return Err(
                        GlyphAnimationGraphError::InvalidTransitionState {
                            name: meta.transitions[k].from.clone(),
                            from: meta.transitions[k].from.clone(),
                            to: meta.transitions[k].to.clone(),
                        },
                    );
                },
                Some(idx) => {
                    proof {
                        assert(meta_resolves_upto(meta, k + 1));
                    }
                    let animation = clone_option_string(&meta.transitions[k].animation);
                    let mut edges: Vec<GlyphAnimationGraphTransition> = Vec::new();
                    transitions.set_and_swap(idx, &mut edges);
                    edges.push(GlyphAnimationGraphTransition { to: idx, animation });
                    transitions.set_and_swap(idx, &mut edges);
                },
            }
            k = k + 1;
        }
        proof {
            assert forall|n: int, i: int|
                0 <= n < transitions@.len() && 0 <= i < transitions@[n]@.len() implies #[trigger] transitions@[n]@[i].to < transitions@.len() && transitions@[n]@[i].to < states@.len() by {
                lemma_meta_edges(meta, n_transitions as int, n);
            }
        }
        let g = GlyphAnimationGraphSource { state_names, states, transitions };
        Ok(g)
    }
}

impl GlyphAnimationGraphSource {
    /// The animations that a traversal from `src` to `dest` collects, or
    /// `None` when its search finds no path.
    pub open spec fn traversal_animations(self, src: usize, dest: usize) -> Option<Seq<String>> {
        self.search(dest, seq![src], Seq::empty())
    }

    /// The animation of state `i`.
    pub closed spec fn state_animation(self, i: int) -> String {
        self.states@[i].animation
    }

    /// The name of state `i`.
    pub closed spec fn state_name(self, i: int) -> String {
        self.states@[i].name
    }

    /// Whether a traversal from `src` to `dest` stays in bounds.
    pub fn can_traverse(&self, src: usize, dest: usize) -> (b: bool)
        ensures
            b == self.traversable(src, dest),
    {
        src < self.states.len() && (src == dest || src < self.transitions.len())
    }

    /// Finds a path from state `src` to state `dest`, trying the edges of
    /// each state in order, and collects the animations of its transitions;
    /// the destination animation is that of `src`.
    pub fn traverse(&self, src: usize, dest: usize) -> (t: GlyphAnimationTransition)
        requires
            self.traversable(src, dest),
        ensures
            match t.transitions {
                Some(v) => self.traversal_animations(src, dest) == Some(v@),
                None => self.traversal_animations(src, dest) is None,
            },
            t.destination == self.state_animation(src as int),
    {
        proof {
            use_type_invariant(self);
        }
        let mut path: Vec<usize> = Vec::with_capacity(2);
        path.push(src);
        let empty: Vec<String> = Vec::new();
        proof {
            assert(path@ =~= seq![src]);
            assert(empty@ =~= Seq::<String>::empty());
        }
        let transitions = self.recursive_traversal(dest, &path, &empty);
        GlyphAnimationTransition { transitions, destination: self.states[src].animation.clone() }
    }

    /// Looks up the two states by name and traverses from one to the other.
    pub fn traverse_named(&self, src: String, dest: String) -> (res: Result<
        GlyphAnimationTransition,
        GlyphAnimationGraphError,
    >)
        requires
            self.state_index(src@) is Some && self.state_index(dest@) is Some ==> self.traversable(
                self.state_index(src@).unwrap(),
                self.state_index(dest@).unwrap(),
            ),
        ensures
            res is Err <==> self.state_index(src@) is None || self.state_index(dest@) is None,
            res matches Err(e) ==> e is InvalidTraversalState,
            res matches Ok(t) ==> {
                let (s, d) = (self.state_index(src@).unwrap(), self.state_index(dest@).unwrap());
                &&& match t.transitions {
                    Some(v) => self.traversal_animations(s, d) == Some(v@),
                    None => self.traversal_animations(s, d) is None,
                }
                &&& t.destination == self.state_animation(s as int)
            },
    {
        let src_index = match self.state_names.get(&src) {
            Some(i) => i,
            None => {
                return Err(GlyphAnimationGraphError::InvalidTraversalState);
            },
        };
        let dest_index = match self.state_names.get(&dest) {
            Some(i) => i,
            None => {
                return Err(GlyphAnimationGraphError::InvalidTraversalState);
            },
        };
        Ok(self.traverse(src_index, dest_index))
    }

    /// The depth-first search of [`GlyphAnimationGraphSource::search`].
    fn recursive_traversal(
        &self,
        dest: usize,
        path: &Vec<usize>,
        transition_animations: &Vec<String>,
    ) -> (r: Option<Vec<String>>)
        requires
            path@.len() > 0,
            path@.no_duplicates(),
            path@.last() != dest ==> all_below(path@, self.node_count()),
        ensures
            match r {
                Some(v) => self.search(dest, path@, transition_animations@) == Some(v@),
                None => self.search(dest, path@, transition_animations@) is None,
            },
        decreases self.node_count() - path@.len(),
    {
        proof {
            use_type_invariant(self);
        }
        let node = path[path.len() - 1];
        if node == dest {
            return Some(copy_strings(transition_animations));
        }
        let edges = &self.transitions[node];
        let ghost anims = transition_animations@;
        let mut i: usize = 0;
        while i < edges.len()
            invariant
                self.wf(),
                node == path@.last(),
                node < self.node_count(),
                node != dest,
                *edges == self.transitions@[node as int],
                path@.len() > 0,
                path@.no_duplicates(),
                all_below(path@, self.node_count()),
                anims == transition_animations@,
                i <= edges@.len(),
                self.search(dest, path@, anims) == self.search_from(dest, path@, anims, i as int),
            decreases edges@.len() - i,
        {
            let child = &edges[i];
            let ghost e = self.edges(node as int)[i as int];
            assert(*child == e);
            if !path_contains(path, child.to) {
                let mut new_path = copy_indices(path);
                new_path.push(child.to);
                let mut new_anims = copy_strings(transition_animations);
                match &child.animation {
                    Some(a) => new_anims.push(a.clone()),
                    None => {},
                }
                proof {
                    assert(new_path@ =~= path@.push(e.to));
                    assert(new_anims@ =~= anims + edge_animations(e));
                    assert(new_path@.no_duplicates());
                    assert(all_below(new_path@, self.node_count()));
                    lemma_distinct_below_len(new_path@, self.node_count());
                }
                match self.recursive_traversal(dest, &new_path, &new_anims) {
                    Some(p) => {
                        return Some(p);
                    },
                    None => {},
                }
            }
            i = i + 1;
        }
        None
    }
}

impl GlyphAnimationGraphSource {
    /// `nodes` is a walk of the graph: its step `i` takes edge `choice[i]`
    /// of state `nodes[i]`, which leads to `nodes[i + 1]`.
    pub open spec fn is_walk(self, nodes: Seq<usize>, choice: Seq<int>) -> bool {
        &&& nodes.len() == choice.len() + 1
        &&& forall|i: int|
            0 <= i < choice.len() ==> nodes[i] < self.node_count() && 0 <= #[trigger] choice[i]
                < self.edges(nodes[i] as int).len() && self.edges(nodes[i] as int)[choice[i]].to
                == nodes[i + 1]
    }

    /// The animations of the edges that a walk takes, in order.
    pub open spec fn walk_animations(self, nodes: Seq<usize>, choice: Seq<int>) -> Seq<String>
        decreases choice.len(),
    {
        if choice.len() == 0 || nodes.len() == 0 {
            Seq::empty()
        } else {
            edge_animations(self.edges(nodes[0] as int)[choice[0]]) + self.walk_animations(
                nodes.drop_first(),
                choice.drop_first(),
            )
        }
    }

    /// Whether the search may follow edge `i` of the last state of `path`.
    pub open spec fn may_follow(self, path: Seq<usize>, i: int) -> bool {
        !path.contains(self.edges(path.last() as int)[i].to) && path.len() < self.node_count()
    }
}

/// When the search over the edges from `i` on finds nothing, neither does
/// the search behind any edge from `i` on that it may follow.
proof fn lemma_search_from_none(
    g: GlyphAnimationGraphSource,
    dest: usize,
    path: Seq<usize>,
    anims: Seq<String>,
    i: int,
    j: int,
)
    requires
        path.len() > 0,
        0 <= i <= j < g.edges(path.last() as int).len(),
        g.search_from(dest, path, anims, i) is None,
        g.may_follow(path, j),
    ensures
        g.search(
            dest,
            path.push(g.edges(path.last() as int)[j].to),
            anims + edge_animations(g.edges(path.last() as int)[j]),
        ) is None,
    decreases j - i,
{
    if i < j {
        lemma_search_from_none(g, dest, path, anims, i + 1, j);
    }
}

/// When the search over the edges from `i` on finds something, it is what
/// the search behind one of those edges that it may follow finds.
proof fn lemma_search_from_some(
    g: GlyphAnimationGraphSource,
    dest: usize,
    path: Seq<usize>,
    anims: Seq<String>,
    i: int,
)
    requires
        path.len() > 0,
        0 <= i,
        g.search_from(dest, path, anims, i) is Some,
    ensures
        exists|j: int|
            i <= j < g.edges(path.last() as int).len() && g.may_follow(path, j) && g.search(
                dest,
                path.push(g.edges(path.last() as int)[j].to),
                anims + edge_animations(g.edges(path.last() as int)[j]),
            ) == g.search_from(dest, path, anims, i),
    decreases g.edges(path.last() as int).len() - i,
{
    let e = g.edges(path.last() as int)[i];
    let first = if !path.contains(e.to) && path.len() < g.node_count() {
        g.search(dest, path.push(e.to), anims + edge_animations(e))
    } else {
        None
    };
    if first is None {
        lemma_search_from_some(g, dest, path, anims, i + 1);
    } else {
        assert(g.may_follow(path, i));
        assert(g.search(dest, path.push(e.to), anims + edge_animations(e)) == g.search_from(
            dest,
            path,
            anims,
            i,
        ));
    }
}

/// What the search finds is a simple walk from the last state of `path` to
/// `dest`, and `anims` followed by the animations along it.
proof fn lemma_search_sound(
    g: GlyphAnimationGraphSource,
    dest: usize,
    path: Seq<usize>,
    anims: Seq<String>,
)
    requires
        path.len() > 0,
        g.search(dest, path, anims) is Some,
    ensures
        exists|nodes: Seq<usize>, choice: Seq<int>|
            #![trigger g.is_walk(nodes, choice)]
            g.is_walk(nodes, choice) && nodes[0] == path.last() && (path.drop_last()
                + nodes).no_duplicates() == path.no_duplicates() && nodes.last() == dest && g.search(
                dest,
                path,
                anims,
            ).unwrap() == anims + g.walk_animations(nodes, choice),
    decreases g.node_count() - path.len(),
{
    let last = path.last();
    if last == dest {
        let nodes = seq![last];
        let choice = Seq::<int>::empty();
        assert(path.drop_last() + nodes =~= path);
        assert(g.walk_animations(nodes, choice) =~= Seq::empty());
        assert(anims + Seq::<String>::empty() =~= anims);
        assert(g.is_walk(nodes, choice));
    } else {
        lemma_search_from_some(g, dest, path, anims, 0);
        let j = choose|j: int|
            0 <= j < g.edges(last as int).len() && g.may_follow(path, j) && g.search(
                dest,
                path.push(g.edges(last as int)[j].to),
                anims + edge_animations(g.edges(last as int)[j]),
            ) == g.search_from(dest, path, anims, 0);
        let e = g.edges(last as int)[j];
        let path2 = path.push(e.to);
        let anims2 = anims + edge_animations(e);
        lemma_search_sound(g, dest, path2, anims2);
        let (nodes2, choice2) = choose|nodes: Seq<usize>, choice: Seq<int>|
            #![trigger g.is_walk(nodes, choice)]
            g.is_walk(nodes, choice) && nodes[0] == path2.last() && (path2.drop_last()
                + nodes).no_duplicates() == path2.no_duplicates() && nodes.last() == dest
                && g.search(dest, path2, anims2).unwrap() == anims2 + g.walk_animations(
                nodes,
                choice,
            );
        let nodes = seq![last] + nodes2;
        let choice = seq![j] + choice2;
        assert(nodes.drop_first() =~= nodes2);
        assert(choice.drop_first() =~= choice2);
        assert(path2.drop_last() =~= path);
        assert(path.drop_last() + nodes =~= path + nodes2);
        assert(path2.drop_last() + nodes2 =~= path + nodes2);
        assert(path.drop_last().push(last) =~= path);
        assert(g.is_walk(nodes, choice)) by {
            assert forall|i: int| 0 <= i < choice.len() implies nodes[i] < g.node_count() && 0
                <= #[trigger] choice[i] < g.edges(nodes[i] as int).len() && g.edges(
                nodes[i] as int,
            )[choice[i]].to == nodes[i + 1] by {
                if i > 0 {
                    assert(choice[i] == choice2[i - 1]);
                    assert(nodes[i] == nodes2[i - 1]);
                    assert(nodes[i + 1] == nodes2[i]);
                }
            }
        }
        assert(path2.no_duplicates() == path.no_duplicates()) by {
            if path.no_duplicates() {
                assert(path2.no_duplicates());
            }
            if path2.no_duplicates() {
                assert forall|a: int, b: int|
                    0 <= a < path.len() && 0 <= b < path.len() && a != b implies path[a]
                    != path[b] by {
                    assert(path2[a] == path[a] && path2[b] == path[b]);
                }
            }
        }
        assert(g.walk_animations(nodes, choice) == edge_animations(e) + g.walk_animations(
            nodes2,
            choice2,
        ));
        assert(anims + g.walk_animations(nodes, choice) =~= anims2 + g.walk_animations(
            nodes2,
            choice2,
        ));
    }
}

/// When the search finds nothing, no simple walk from the last state of
/// `path` that avoids the rest of `path` reaches `dest`.
proof fn lemma_search_complete(
    g: GlyphAnimationGraphSource,
    dest: usize,
    path: Seq<usize>,
    anims: Seq<String>,
    nodes: Seq<usize>,
    choice: Seq<int>,
)
    requires
        g.wf(),
        path.len() > 0,
        all_below(path.drop_last(), g.node_count()),
        g.search(dest, path, anims) is None,
        g.is_walk(nodes, choice),
        nodes[0] == path.last(),
        (path.drop_last() + nodes).no_duplicates(),
    ensures
        nodes.last() != dest,
    decreases nodes.len(),
{
    let last = path.last();
    if choice.len() > 0 {
        assert(last != dest);
        let j = choice[0];
        let e = g.edges(last as int)[j];
        assert(e.to == nodes[1]);
        let path2 = path.push(e.to);
        let joined = path.drop_last() + nodes;
        assert(path.drop_last().push(last) =~= path);
        assert(!path.contains(e.to)) by {
            if path.contains(e.to) {
                let a = choose|a: int| 0 <= a < path.len() && path[a] == e.to;
                if a < path.len() - 1 {
                    assert(joined[a] == e.to);
                    assert(joined[path.len() - 1 + 1] == nodes[1]);
                } else {
                    assert(joined[path.len() - 1] == nodes[0]);
                    assert(joined[path.len() - 1 + 1] == nodes[1]);
                }
            }
        }
        assert(path2.no_duplicates()) by {
            assert forall|a: int, b: int|
                0 <= a < path2.len() && 0 <= b < path2.len() && a != b implies path2[a]
                != path2[b] by {
                if a < path.len() && b < path.len() {
                    if a < path.len() - 1 && b < path.len() - 1 {
                        assert(joined[a] == path2[a] && joined[b] == path2[b]);
                    } else if a == path.len() - 1 && b < path.len() - 1 {
                        assert(joined[a] == path2[a] && joined[b] == path2[b]);
                    } else if b == path.len() - 1 && a < path.len() - 1 {
                        assert(joined[a] == path2[a] && joined[b] == path2[b]);
                    }
                }
            }
        }
        assert(all_below(path2, g.node_count())) by {
            assert forall|a: int| 0 <= a < path2.len() implies #[trigger] path2[a] < g.node_count() by {
                if a < path.len() - 1 {
                    assert(path.drop_last()[a] == path2[a]);
                } else if a == path.len() - 1 {
                    assert(path2[a] == nodes[0]);
                }
            }
        }
        lemma_distinct_below_len(path2, g.node_count());
        assert(g.search(dest, path, anims) == g.search_from(dest, path, anims, 0));
        assert(g.may_follow(path, j));
        lemma_search_from_none(g, dest, path, anims, 0, j);
        let nodes2 = nodes.drop_first();
        let choice2 = choice.drop_first();
        assert(path2.drop_last() =~= path);
        assert(path2.drop_last() + nodes2 =~= joined);
        assert(g.is_walk(nodes2, choice2)) by {
            assert forall|i: int| 0 <= i < choice2.len() implies nodes2[i] < g.node_count() && 0
                <= #[trigger] choice2[i] < g.edges(nodes2[i] as int).len() && g.edges(
                nodes2[i] as int,
            )[choice2[i]].to == nodes2[i + 1] by {
                assert(choice2[i] == choice[i + 1]);
                assert(nodes2[i] == nodes[i + 1]);
                assert(nodes2[i + 1] == nodes[i + 2]);
            }
        }
        lemma_search_complete(g, dest, path2, anims + edge_animations(e), nodes2, choice2);
    }
}

/// A traversal's search is sound: what it finds are the animations along a
/// walk of the graph from `src` to `dest` that visits no state twice.
pub proof fn lemma_traversal_sound(g: GlyphAnimationGraphSource, src: usize, dest: usize)
    requires
        g.traversal_animations(src, dest) is Some,
    ensures
        exists|nodes: Seq<usize>, choice: Seq<int>|
            #![trigger g.is_walk(nodes, choice)]
            g.is_walk(nodes, choice) && nodes.no_duplicates() && nodes[0] == src && nodes.last()
                == dest && g.traversal_animations(src, dest) == Some(
                g.walk_animations(nodes, choice),
            ),
{
    let path = seq![src];
    lemma_search_sound(g, dest, path, Seq::empty());
    let (nodes, choice) = choose|nodes: Seq<usize>, choice: Seq<int>|
        #![trigger g.is_walk(nodes, choice)]
        g.is_walk(nodes, choice) && nodes[0] == path.last() && (path.drop_last()
            + nodes).no_duplicates() == path.no_duplicates() && nodes.last() == dest && g.search(
            dest,
            path,
            Seq::empty(),
        ).unwrap() == Seq::empty() + g.walk_animations(nodes, choice);
    assert(path.drop_last() + nodes =~= nodes);
    assert(Seq::<String>::empty() + g.walk_animations(nodes, choice) =~= g.walk_animations(
        nodes,
        choice,
    ));
}

/// A traversal's search is complete: when it finds nothing, no walk of the
/// graph from `src` that visits no state twice ends at `dest`.
pub proof fn lemma_traversal_complete(g: GlyphAnimationGraphSource, src: usize, dest: usize)
    requires
        g.wf(),
        g.traversal_animations(src, dest) is None,
    ensures
        forall|nodes: Seq<usize>, choice: Seq<int>|
            #![trigger g.is_walk(nodes, choice)]
            g.is_walk(nodes, choice) && nodes.no_duplicates() && nodes[0] == src ==> nodes.last()
                != dest,
{
    assert forall|nodes: Seq<usize>, choice: Seq<int>|
        #![trigger g.is_walk(nodes, choice)]
        g.is_walk(nodes, choice) && nodes.no_duplicates() && nodes[0] == src implies nodes.last()
        != dest by {
        let path = seq![src];
        assert(path.drop_last() + nodes =~= nodes);
        assert(all_below(path.drop_last(), g.node_count()));
        lemma_search_complete(g, dest, path, Seq::empty(), nodes, choice);
    }
}

/// Whether `x` is one of the elements of `path`.
fn path_contains(path: &Vec<usize>, x: usize) -> (b: bool)
    ensures
        b == path@.contains(x),
{
    let mut i: usize = 0;
    while i < path.len()
        invariant
            i <= path@.len(),
            forall|j: int| 0 <= j < i ==> path@[j] != x,
        decreases path@.len() - i,
    {
        if path[i] == x {
            return true;
        }
        i = i + 1;
    }
    false
}

/// A copy of a list of indices.
fn copy_indices(v: &Vec<usize>) -> (r: Vec<usize>)
    ensures
        r@ == v@,
{
    let mut r: Vec<usize> = Vec::with_capacity(v.len());
    let mut i: usize = 0;
    while i < v.len()
        invariant
            i <= v@.len(),
            r@ =~= v@.subrange(0, i as int),
        decreases v@.len() - i,
    {
        r.push(v[i]);
        i = i + 1;
    }
    assert(v@.subrange(0, v@.len() as int) =~= v@);
    r
}

/// A copy of a list of strings.
fn copy_strings(v: &Vec<String>) -> (r: Vec<String>)
    ensures
        r@ == v@,
{
    let mut r: Vec<String> = Vec::with_capacity(v.len());
    let mut i: usize = 0;
    while i < v.len()
        invariant
            i <= v@.len(),
            r@ =~= v@.subrange(0, i as int),
        decreases v@.len() - i,
    {
        r.push(v[i].clone());
        i = i + 1;
    }
    assert(v@.subrange(0, v@.len() as int) =~= v@);
    r
}

/// A copy of an optional string.
fn clone_option_string(o: &Option<String>) -> (r: Option<String>)
    ensures
        r == *o,
{
    match o {
        Some(s) => Some(s.clone()),
        None => None,
    }
}

/// Every edge that the transitions give a state leads back to it, and a
/// state with an edge is a state of the file.
proof fn lemma_meta_edges(meta: GlyphAnimationGraphMeta, k: int, n: int)
    requires
        0 <= n <= usize::MAX,
        k <= meta.transitions@.len(),
    ensures
        forall|i: int| 0 <= i < meta_edges(meta, k, n).len() ==> #[trigger] meta_edges(meta, k, n)[i].0 == n,
        meta_edges(meta, k, n).len() > 0 ==> 0 <= n < meta.states@.len(),
    decreases k,
{
    if k > 0 {
        lemma_meta_edges(meta, k - 1, n);
        lemma_meta_state_index(meta.states@);
        let before = meta_edges(meta, k - 1, n);
        if meta_from_index(meta, k - 1) == Some(n) {
            let name = meta.transitions@[k - 1].from@;
            assert(meta_state_index(meta.states@, name) is Some);
            assert forall|i: int| 0 <= i < meta_edges(meta, k, n).len() implies #[trigger] meta_edges(
                meta,
                k,
                n,
            )[i].0 == n by {
                if i < before.len() {
                    assert(meta_edges(meta, k, n)[i] == before[i]);
                }
            }
        }
    }
}

/// The first index found for a name is a state with that name before which
/// no state has it, and no index is found when no state has it.
pub proof fn lemma_meta_state_index(states: Seq<GlyphAnimationGraphStateMeta>)
    ensures
        forall|name: Seq<char>| #[trigger]
            meta_state_index(states, name) is Some ==> {
                let i = meta_state_index(states, name).unwrap();
                &&& 0 <= i < states.len()
                &&& states[i].name@ == name
                &&& forall|j: int| 0 <= j < i ==> states[j].name@ != name
            },
        forall|name: Seq<char>, j: int|
            #![trigger meta_state_index(states, name), states[j]]
            meta_state_index(states, name) is None && 0 <= j < states.len() ==> states[j].name@
                != name,
    decreases states.len(),
{
    if states.len() > 0 {
        lemma_meta_state_index(states.drop_last());
        assert forall|name: Seq<char>, j: int|
            meta_state_index(states, name) is None && 0 <= j < states.len() implies states[j].name@
            != name by {
            if states.last().name@ == name {
                assert(meta_state_index(states, name) is Some);
            }
            if j < states.len() - 1 {
                assert(meta_state_index(states.drop_last(), name) is None);
                assert(states.drop_last()[j] == states[j]);
            }
        }
        assert forall|name: Seq<char>| #[trigger]
            meta_state_index(states, name) is Some implies {
                let i = meta_state_index(states, name).unwrap();
                &&& 0 <= i < states.len()
                &&& states[i].name@ == name
                &&& forall|j: int| 0 <= j < i ==> states[j].name@ != name
            } by {
            let i = meta_state_index(states, name).unwrap();
            if meta_state_index(states.drop_last(), name) is Some {
                assert(states.drop_last()[i] == states[i]);
                assert forall|j: int| 0 <= j < i implies states[j].name@ != name by {
                    assert(states.drop_last()[j] == states[j]);
                }
            } else {
                assert forall|j: int| 0 <= j < i implies states[j].name@ != name by {
                    assert(states.drop_last()[j] == states[j]);
                }
            }
        }
    }
}

} // verus!
