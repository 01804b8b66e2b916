//! A prefix tree over characters, used for longest-match keyword lookup.

use crate::text::{chars_of, is_prefix_of};
use crate::tokens::TokenType;
use vstd::prelude::*;

verus! {

/// One node of the tree: the payload and end-of-key mark of the path that
/// leads to it, and its outgoing edges as pairs of a character and the index
/// of the node the edge leads to.
struct TrieNode<T> {
    typ: Option<T>,
    is_last: bool,
    children: Vec<(char, usize)>,
}

impl<T> TrieNode<T> {
    fn new() -> (node: Self)
        ensures
            node.typ is None,
            !node.is_last,
            node.children@.len() == 0,
    {
        TrieNode { typ: None, is_last: false, children: Vec::new() }
    }
}

/// For each node: the characters on the way from the root to it, the node
/// the way comes through last, and the position of the edge in that node.
pub ghost struct TrieShape {
    pub paths: Seq<Seq<char>>,
    pub parent: Seq<int>,
    pub slot: Seq<int>,
}

/// A prefix tree. Its nodes live in one vector, the root at index 0.
pub struct Trie<T> {
    nodes: Vec<TrieNode<T>>,
    shape: Ghost<TrieShape>,
}

/// The characters at which a keyword may end.
pub open spec fn is_boundary(c: char) -> bool {
    c == ' ' || c == ';' || c == ':' || c == '\n' || c == '\r' || c == '(' || c == ')'
}

/// The characters a bare name is made of.
pub open spec fn is_word_char(c: char) -> bool {
    ('A' <= c && c <= 'Z') || ('a' <= c && c <= 'z') || ('0' <= c && c <= '9') || c == '_'
}

/// The characters that may follow a bare name.
pub open spec fn is_name_end(c: char) -> bool {
    c == ' ' || c == ';' || c == ',' || c == ')' || c == '\n'
}

/// The index of the first character of `s` at or after `i` that is no word
/// character, or the length of `s` if there is none.
pub open spec fn word_end(s: Seq<char>, i: int) -> int
    decreases s.len() - i,
{
    if 0 <= i < s.len() && is_word_char(s[i]) {
        word_end(s, i + 1)
    } else {
        i
    }
}

/// What name matching gives on `s`: a non-empty run of word characters from
/// the start of `s`, if a character that may end a name follows it.
pub open spec fn match_name_spec(s: Seq<char>) -> Option<(usize, Option<TokenType>)> {
    let end = word_end(s, 0);
    if 0 < end < s.len() && is_name_end(s[end]) {
        Some((end as usize, Some(TokenType::Name)))
    } else {
        None
    }
}

pub fn is_boundary_char(c: char) -> (r: bool)
    ensures
        r == is_boundary(c),
{
    c == ' ' || c == ';' || c == ':' || c == '\n' || c == '\r' || c == '(' || c == ')'
}

pub fn is_word_character(c: char) -> (r: bool)
    ensures
        r == is_word_char(c),
{
    (c >= 'A' && c <= 'Z') || (c >= 'a' && c <= 'z') || (c >= '0' && c <= '9') || c == '_'
}

/// Name matching on `chars[start..]`: the length of the run of word
/// characters at its start, if the run is not empty and a blank, `;`, `,`,
/// `)` or a line feed follows it.
pub fn match_name_at(chars: &Vec<char>, start: usize) -> (r: Option<usize>)
    requires
        start <= chars@.len(),
    ensures
        r == match match_name_spec(chars@.subrange(start as int, chars@.len() as int)) {
            Some(m) => Some(m.0),
            None => None,
        },
{
    let ghost s = chars@.subrange(start as int, chars@.len() as int);
    let n: usize = chars.len();
    let mut i: usize = start;
    while i < n && is_word_character(chars[i])
        invariant
            start <= i <= n,
            n == chars@.len(),
            s == chars@.subrange(start as int, n as int),
            word_end(s, 0) == word_end(s, i - start),
        decreases n - i,
    {
        assert(s[i - start] == chars@[i as int]);
        i += 1;
    }
    proof {
        if i < n {
            assert(s[i - start] == chars@[i as int]);
        }
        assert(word_end(s, i - start) == i - start);
    }
    if i > start && i < n {
        let c = chars[i];
        if c == ' ' || c == ';' || c == ',' || c == ')' || c == '\n' {
            return Some(i - start);
        }
    }
    None
}

/// Name matching on `sql`.
pub fn match_name(sql: &str) -> (r: Option<(usize, Option<TokenType>)>)
    ensures
        r == match_name_spec(sql@),
{
    let chars = chars_of(sql);
    assert(chars@.subrange(0, chars@.len() as int) == chars@);
    match match_name_at(&chars, 0) {
        Some(n) => Some((n, Some(TokenType::Name))),
        None => None,
    }
}

impl<T> Trie<T> {
    /// The invariant of the tree: every node has one path, the paths of two
    /// nodes differ, every edge leads from a path to that path with one more
    /// character, every node but the root has an edge that leads to it, and
    /// only nodes that end a key carry a payload.
    pub closed spec fn wf(&self) -> bool {
        let nodes = self.nodes@;
        let shape = self.shape@;
        &&& nodes.len() >= 1
        &&& shape.paths.len() == nodes.len()
        &&& shape.parent.len() == nodes.len()
        &&& shape.slot.len() == nodes.len()
        &&& shape.paths[0] == Seq::<char>::empty()
        &&& forall|i: int, k: int|
            #![trigger nodes[i].children@[k]]
            0 <= i < nodes.len() && 0 <= k < nodes[i].children@.len() ==> {
                let e = nodes[i].children@[k];
                &&& 0 < e.1 < nodes.len()
                &&& shape.paths[e.1 as int] == shape.paths[i].push(e.0)
            }
        &&& forall|j: int|
            #![trigger shape.parent[j]]
            0 < j < nodes.len() ==> {
                let i = shape.parent[j];
                let k = shape.slot[j];
                &&& 0 <= i < nodes.len()
                &&& 0 <= k < nodes[i].children@.len()
                &&& shape.paths[j].len() > 0
                &&& nodes[i].children@[k] == (shape.paths[j].last(), j as usize)
                &&& shape.paths[i] == shape.paths[j].drop_last()
            }
        &&& forall|i: int, j: int|
            #![trigger shape.paths[i], shape.paths[j]]
            0 <= i < j < nodes.len() ==> shape.paths[i] != shape.paths[j]
        &&& forall|i: int|
            #![trigger nodes[i]]
            0 <= i < nodes.len() && !nodes[i].is_last ==> nodes[i].typ is None
    }

    /// Whether `p` is a path of the tree: a prefix of a key that was inserted.
    pub closed spec fn reaches(&self, p: Seq<char>) -> bool {
        exists|i: int| 0 <= i < self.nodes@.len() && #[trigger] self.shape@.paths[i] == p
    }

    /// The node that the path `p` leads to.
    closed spec fn node_of(&self, p: Seq<char>) -> int {
        choose|i: int| 0 <= i < self.nodes@.len() && #[trigger] self.shape@.paths[i] == p
    }

    /// The keys of the tree, each with its payload; a key that was inserted
    /// without one has `None`.
    pub closed spec fn view(&self) -> Map<Seq<char>, Option<T>> {
        Map::new(
            |k: Seq<char>| self.reaches(k) && self.nodes@[self.node_of(k)].is_last,
            |k: Seq<char>| self.nodes@[self.node_of(k)].typ,
        )
    }

    /// The payload that the path `p` carries: that of the key `p`, or none.
    pub open spec fn payload(&self, p: Seq<char>) -> Option<T> {
        if self@.contains_key(p) {
            self@[p]
        } else {
            None
        }
    }

    /// The length of the longest prefix of `s` that is a path of the tree and
    /// has at least `i` characters, given that the prefix of `i` characters
    /// is a path.
    pub open spec fn path_len(&self, s: Seq<char>, i: int) -> int
        decreases s.len() - i,
    {
        if 0 <= i < s.len() && self.reaches(s.subrange(0, i + 1)) {
            self.path_len(s, i + 1)
        } else {
            i
        }
    }

    /// Whether the first `k` characters of `s` are a keyword that ends
    /// there: a key of three characters or more, with a boundary character
    /// or the end of `s` behind it.
    pub open spec fn ends_keyword(&self, s: Seq<char>, k: int) -> bool {
        3 <= k <= s.len() && self@.contains_key(s.subrange(0, k)) && (k == s.len() || is_boundary(
            s[k],
        ))
    }

    /// The length of the longest keyword that `s` starts with and that ends
    /// within its first `n` characters, or 0 if there is none.
    pub open spec fn keyword_len(&self, s: Seq<char>, n: int) -> int
        decreases n,
    {
        if n <= 0 {
            0
        } else if self.ends_keyword(s, n) {
            n
        } else {
            self.keyword_len(s, n - 1)
        }
    }

    /// What keyword matching gives on `s`: the length, in characters, of the
    /// longest prefix of `s` that is a key of three characters or more and
    /// has a boundary character or the end of `s` behind it; nothing where
    /// `s` has no such prefix.
    pub open spec fn match_keyword_spec(&self, s: Seq<char>) -> Option<usize> {
        let k = self.keyword_len(s, s.len() as int);
        if k > 0 {
            Some(k as usize)
        } else {
            None
        }
    }

    proof fn lemma_node_of(&self, i: int)
        requires
            self.wf(),
            0 <= i < self.nodes@.len(),
        ensures
            self.reaches(self.shape@.paths[i]),
            self.node_of(self.shape@.paths[i]) == i,
    {
        let p = self.shape@.paths[i];
        let j = self.node_of(p);
        assert(0 <= j < self.nodes@.len() && self.shape@.paths[j] == p);
        if i < j {
            assert(self.shape@.paths[i] != self.shape@.paths[j]);
        } else if j < i {
            assert(self.shape@.paths[j] != self.shape@.paths[i]);
        }
    }

    /// The paths of a tree are closed under taking prefixes.
    pub proof fn lemma_reaches_prefix(&self, p: Seq<char>)
        requires
            self.wf(),
            self.reaches(p),
            p.len() > 0,
        ensures
            self.reaches(p.drop_last()),
    {
        let j = self.node_of(p);
        assert(self.shape@.paths[j] == p);
        assert(j != 0);
        let i = self.shape@.parent[j];
        assert(self.shape@.paths[i] == p.drop_last());
    }

    fn find_child(&self, node: usize, c: char) -> (r: Option<usize>)
        requires
            self.wf(),
            node < self.nodes@.len(),
        ensures
            match r {
                Some(j) => j < self.nodes@.len() && self.shape@.paths[j as int]
                    == self.shape@.paths[node as int].push(c),
                None => !self.reaches(self.shape@.paths[node as int].push(c)),
            },
    {
        let n: usize = self.nodes[node].children.len();
        let mut k: usize = 0;
        while k < n
            invariant
                self.wf(),
                node < self.nodes@.len(),
                n == self.nodes@[node as int].children@.len(),
                k <= n,
                forall|m: int| 0 <= m < k ==> self.nodes@[node as int].children@[m].0 != c,
            decreases n - k,
        {
            let e = self.nodes[node].children[k];
            if e.0 == c {
                assert(e == self.nodes@[node as int].children@[k as int]);
                return Some(e.1);
            }
            k += 1;
        }
        proof {
            let target = self.shape@.paths[node as int].push(c);
            if self.reaches(target) {
                let j = self.node_of(target);
                assert(self.shape@.paths[j] == target);
                assert(j != 0);
                let i = self.shape@.parent[j];
                let s = self.shape@.slot[j];
                assert(target.drop_last() == self.shape@.paths[node as int]);
                assert(self.shape@.paths[i] == self.shape@.paths[node as int]);
                if i < node {
                    assert(self.shape@.paths[i] != self.shape@.paths[node as int]);
                } else if node < i {
                    assert(self.shape@.paths[node as int] != self.shape@.paths[i]);
                }
                assert(self.nodes@[node as int].children@[s].0 == c);
                assert(false);
            }
        }
        None
    }

    /// Follows `chars[start..limit]` from the root as far as the tree has
    /// edges. Returns the node reached and the number of characters followed.
    fn walk(&self, chars: &Vec<char>, start: usize, limit: usize) -> (r: (usize, usize))
        requires
            self.wf(),
            start <= limit <= chars@.len(),
        ensures
            r.0 < self.nodes@.len(),
            start + r.1 <= limit,
            self.shape@.paths[r.0 as int] == chars@.subrange(start as int, start + r.1),
            r.1 == self.path_len(chars@.subrange(start as int, limit as int), 0),
    {
        let ghost s = chars@.subrange(start as int, limit as int);
        let mut cur: usize = 0;
        let mut i: usize = start;
        assert(chars@.subrange(start as int, start as int) == Seq::<char>::empty());
        loop
            invariant
                self.wf(),
                start <= i <= limit <= chars@.len(),
                s == chars@.subrange(start as int, limit as int),
                cur < self.nodes@.len(),
                self.shape@.paths[cur as int] == chars@.subrange(start as int, i as int),
                self.path_len(s, 0) == self.path_len(s, i - start),
            ensures
                start <= i <= limit,
                cur < self.nodes@.len(),
                self.shape@.paths[cur as int] == chars@.subrange(start as int, i as int),
                self.path_len(s, 0) == i - start,
            decreases limit - i,
        {
            if i >= limit {
                break ;
            }
            let c = chars[i];
            proof {
                assert(s.subrange(0, i - start + 1) == chars@.subrange(
                    start as int,
                    i as int,
                ).push(c));
            }
            match self.find_child(cur, c) {
                Some(next) => {
                    proof {
                        assert(chars@.subrange(start as int, i as int + 1) == chars@.subrange(
                            start as int,
                            i as int,
                        ).push(c));
                        assert(self.reaches(s.subrange(0, i - start + 1)));
                    }
                    cur = next;
                    i += 1;
                },
                None => {
                    break ;
                },
            }
        }
        (cur, i - start)
    }

    /// No keyword ends behind the longest prefix that is a path.
    proof fn lemma_keyword_len_stops(&self, s: Seq<char>, d: int, m: int)
        requires
            self.wf(),
            0 <= d < m <= s.len(),
            !self.reaches(s.subrange(0, d + 1)),
        ensures
            self.keyword_len(s, m) == self.keyword_len(s, d),
        decreases m,
    {
        let p = s.subrange(0, m);
        if self.reaches(p) {
            self.lemma_reaches_prefixes(p, d + 1);
            assert(p.subrange(0, d + 1) == s.subrange(0, d + 1));
        }
        if m > d + 1 {
            self.lemma_keyword_len_stops(s, d, m - 1);
        }
    }

    /// Follows `chars[start..]` from the root as far as the tree has edges
    /// and remembers the last key of three characters or more that ends at
    /// a boundary character or at the end. Returns the length of that key, 0
    /// if there is none, and its node.
    fn scan_keyword(&self, chars: &Vec<char>, start: usize) -> (r: (usize, usize))
        requires
            self.wf(),
            start <= chars@.len(),
        ensures
            r.0 == self.keyword_len(
                chars@.subrange(start as int, chars@.len() as int),
                chars@.len() - start,
            ),
            start + r.0 <= chars@.len(),
            r.1 < self.nodes@.len(),
            r.0 > 0 ==> self.shape@.paths[r.1 as int] == chars@.subrange(
                start as int,
                start + r.0,
            ) && self.nodes@[r.1 as int].is_last,
    {
        let limit: usize = chars.len();
        let ghost s = chars@.subrange(start as int, limit as int);
        let mut cur: usize = 0;
        let mut best: usize = 0;
        let mut node: usize = 0;
        let mut i: usize = start;
        let mut open = true;
        assert(chars@.subrange(start as int, start as int) == Seq::<char>::empty());
        while open && i < limit
            invariant
                self.wf(),
                limit == chars@.len(),
                start <= i <= limit,
                s == chars@.subrange(start as int, limit as int),
                cur < self.nodes@.len(),
                node < self.nodes@.len(),
                self.shape@.paths[cur as int] == chars@.subrange(start as int, i as int),
                best <= i - start,
                best == self.keyword_len(s, i - start),
                best > 0 ==> self.shape@.paths[node as int] == chars@.subrange(
                    start as int,
                    start + best,
                ) && self.nodes@[node as int].is_last,
                !open ==> i < limit && !self.reaches(s.subrange(0, i - start + 1)),
            decreases limit - i, (if open { 1int } else { 0int }),
        {
            let c = chars[i];
            proof {
                assert(s.subrange(0, i - start + 1) == chars@.subrange(
                    start as int,
                    i as int,
                ).push(c));
                assert(chars@.subrange(start as int, i as int + 1) == chars@.subrange(
                    start as int,
                    i as int,
                ).push(c));
            }
            match self.find_child(cur, c) {
                Some(next) => {
                    cur = next;
                    i += 1;
                    proof {
                        self.lemma_node_of(cur as int);
                        assert(s.subrange(0, i - start) == chars@.subrange(start as int, i as int));
                        if i < limit {
                            assert(s[i - start] == chars@[i as int]);
                        }
                    }
                    if self.nodes[cur].is_last && i - start >= 3 && (i == limit || is_boundary_char(
                        chars[i],
                    )) {
                        best = i - start;
                        node = cur;
                    }
                },
                None => {
                    open = false;
                },
            }
        }
        proof {
            if !open {
                self.lemma_keyword_len_stops(s, i - start, limit - start);
            }
        }
        (best, node)
    }

    /// Follows `chars` from the root and adds the nodes that are missing.
    /// Returns the node that `chars` leads to.
    fn descend(&mut self, chars: &Vec<char>) -> (cur: usize)
        requires
            old(self).wf(),
        ensures
            final(self).wf(),
            cur < final(self).nodes@.len(),
            final(self).shape@.paths[cur as int] == chars@,
            old(self).nodes@.len() <= final(self).nodes@.len(),
            forall|i: int|
                0 <= i < old(self).nodes@.len() ==> (#[trigger] final(self).shape@.paths[i])
                    == old(self).shape@.paths[i],
            forall|i: int|
                0 <= i < old(self).nodes@.len() ==> {
                    &&& (#[trigger] final(self).nodes@[i]).typ == old(self).nodes@[i].typ
                    &&& final(self).nodes@[i].is_last == old(self).nodes@[i].is_last
                },
            forall|i: int|
                old(self).nodes@.len() <= i < final(self).nodes@.len() ==> is_prefix_of(
                    #[trigger] final(self).shape@.paths[i],
                    chars@,
                ),
            forall|i: int|
                old(self).nodes@.len() <= i < final(self).nodes@.len() ==> {
                    &&& (#[trigger] final(self).nodes@[i]).typ is None
                    &&& !final(self).nodes@[i].is_last
                },
            forall|p: Seq<char>| is_prefix_of(p, chars@) ==> final(self).reaches(p),
    {
        let n: usize = chars.len();
        let mut cur: usize = 0;
        let mut i: usize = 0;
        assert(chars@.subrange(0, 0) == Seq::<char>::empty());
        while i < n
            invariant
                self.wf(),
                old(self).wf(),
                i <= n,
                n == chars@.len(),
                cur < self.nodes@.len(),
                self.shape@.paths[cur as int] == chars@.subrange(0, i as int),
                old(self).nodes@.len() <= self.nodes@.len(),
                forall|j: int|
                    0 <= j < old(self).nodes@.len() ==> (#[trigger] self.shape@.paths[j])
                        == old(self).shape@.paths[j],
                forall|j: int|
                    0 <= j < old(self).nodes@.len() ==> {
                        &&& (#[trigger] self.nodes@[j]).typ == old(self).nodes@[j].typ
                        &&& self.nodes@[j].is_last == old(self).nodes@[j].is_last
                    },
                forall|j: int|
                    old(self).nodes@.len() <= j < self.nodes@.len() ==> is_prefix_of(
                        #[trigger] self.shape@.paths[j],
                        chars@,
                    ),
                forall|j: int|
                    old(self).nodes@.len() <= j < self.nodes@.len() ==> {
                        &&& (#[trigger] self.nodes@[j]).typ is None
                        &&& !self.nodes@[j].is_last
                    },
                forall|m: int| 0 <= m <= i ==> self.reaches(#[trigger] chars@.subrange(0, m)),
            decreases n - i,
        {
            let c = chars[i];
            let ghost prefix = chars@.subrange(0, i as int);
            let ghost longer = chars@.subrange(0, i as int + 1);
            assert(longer == prefix.push(c));
            match self.find_child(cur, c) {
                Some(next) => {
                    cur = next;
                },
                None => {
                    let ghost before = *self;
                    let fresh: usize = self.nodes.len();
                    self.nodes.push(TrieNode::new());
                    let ghost slot = self.nodes@[cur as int].children@.len() as int;
                    self.nodes[cur].children.push((c, fresh));
                    proof {
                        self.shape@ = TrieShape {
                            paths: before.shape@.paths.push(longer),
                            parent: before.shape@.parent.push(cur as int),
                            slot: before.shape@.slot.push(slot),
                        };
                        let nodes = self.nodes@;
                        let shape = self.shape@;
                        assert(nodes.len() == before.nodes@.len() + 1);
                        assert forall|a: int| 0 <= a < before.nodes@.len() && a != cur implies nodes[a]
                            == before.nodes@[a] by {}
                        assert(nodes[cur as int].children@ == before.nodes@[cur as int].children@.push(
                            (c, fresh),
                        ));
                        assert(nodes[cur as int].typ == before.nodes@[cur as int].typ);
                        assert(nodes[cur as int].is_last == before.nodes@[cur as int].is_last);
                        assert forall|a: int, k: int|
                            #![trigger nodes[a].children@[k]]
                            0 <= a < nodes.len() && 0 <= k < nodes[a].children@.len() implies {
                            let e = nodes[a].children@[k];
                            &&& 0 < e.1 < nodes.len()
                            &&& shape.paths[e.1 as int] == shape.paths[a].push(e.0)
                        } by {
                            if a == cur {
                                if k < slot {
                                    assert(nodes[a].children@[k] == before.nodes@[a].children@[k]);
                                }
                            } else if a < before.nodes@.len() {
                                assert(nodes[a].children@[k] == before.nodes@[a].children@[k]);
                            }
                        }
                        assert forall|j: int| #![trigger shape.parent[j]] 0 < j < nodes.len() implies {
                            let a = shape.parent[j];
                            let k = shape.slot[j];
                            &&& 0 <= a < nodes.len()
                            &&& 0 <= k < nodes[a].children@.len()
                            &&& shape.paths[j].len() > 0
                            &&& nodes[a].children@[k] == (shape.paths[j].last(), j as usize)
                            &&& shape.paths[a] == shape.paths[j].drop_last()
                        } by {
                            if j < before.nodes@.len() {
                                let a = before.shape@.parent[j];
                                let k = before.shape@.slot[j];
                                assert(nodes[a].children@[k] == before.nodes@[a].children@[k]);
                            } else {
                                assert(longer.drop_last() == prefix);
                            }
                        }
                        assert forall|a: int, b: int|
                            #![trigger shape.paths[a], shape.paths[b]]
                            0 <= a < b < nodes.len() implies shape.paths[a] != shape.paths[b] by {
                            if b == fresh {
                                if shape.paths[a] == longer {
                                    assert(before.shape@.paths[a] == longer);
                                    assert(before.reaches(longer));
                                }
                            } else {
                                assert(before.shape@.paths[a] != before.shape@.paths[b]);
                            }
                        }
                        assert(self.wf());
                        assert forall|m: int| 0 <= m <= i implies self.reaches(
                            #[trigger] chars@.subrange(0, m),
                        ) by {
                            let p = chars@.subrange(0, m);
                            assert(before.reaches(p));
                            let w = before.node_of(p);
                            assert(before.shape@.paths[w] == p);
                            assert(shape.paths[w] == p);
                        }
                        assert(is_prefix_of(longer, chars@));
                    }
                    cur = fresh;
                },
            }
            proof {
                assert(self.shape@.paths[cur as int] == longer);
                assert forall|m: int| 0 <= m <= i + 1 implies self.reaches(
                    #[trigger] chars@.subrange(0, m),
                ) by {
                    if m == i + 1 {
                        assert(self.shape@.paths[cur as int] == chars@.subrange(0, m));
                    }
                }
            }
            i += 1;
        }
        proof {
            assert(chars@.subrange(0, n as int) == chars@);
            assert forall|p: Seq<char>| is_prefix_of(p, chars@) implies self.reaches(p) by {
                assert(p == chars@.subrange(0, p.len() as int));
            }
        }
        cur
    }

    /// After `descend`, the paths are the old ones and the prefixes of the
    /// key, and the keys and payloads are the old ones.
    proof fn lemma_descend(old_trie: &Self, new_trie: &Self, key: Seq<char>)
        requires
            old_trie.wf(),
            new_trie.wf(),
            old_trie.nodes@.len() <= new_trie.nodes@.len(),
            forall|i: int|
                0 <= i < old_trie.nodes@.len() ==> (#[trigger] new_trie.shape@.paths[i])
                    == old_trie.shape@.paths[i],
            forall|i: int|
                0 <= i < old_trie.nodes@.len() ==> {
                    &&& (#[trigger] new_trie.nodes@[i]).typ == old_trie.nodes@[i].typ
                    &&& new_trie.nodes@[i].is_last == old_trie.nodes@[i].is_last
                },
            forall|i: int|
                old_trie.nodes@.len() <= i < new_trie.nodes@.len() ==> is_prefix_of(
                    #[trigger] new_trie.shape@.paths[i],
                    key,
                ),
            forall|i: int|
                old_trie.nodes@.len() <= i < new_trie.nodes@.len() ==> {
                    &&& (#[trigger] new_trie.nodes@[i]).typ is None
                    &&& !new_trie.nodes@[i].is_last
                },
            forall|p: Seq<char>| is_prefix_of(p, key) ==> new_trie.reaches(p),
        ensures
            forall|p: Seq<char>|
                #[trigger] new_trie.reaches(p) <==> old_trie.reaches(p) || is_prefix_of(p, key),
            new_trie@ == old_trie@,
    {
        assert forall|p: Seq<char>| #[trigger]
            new_trie.reaches(p) <==> old_trie.reaches(p) || is_prefix_of(p, key) by {
            if new_trie.reaches(p) {
                let i = new_trie.node_of(p);
                assert(new_trie.shape@.paths[i] == p);
                if i < old_trie.nodes@.len() {
                    assert(old_trie.shape@.paths[i] == p);
                }
            }
            if old_trie.reaches(p) {
                let i = old_trie.node_of(p);
                assert(old_trie.shape@.paths[i] == p);
                assert(new_trie.shape@.paths[i] == p);
            }
        }
        assert forall|k: Seq<char>| new_trie@.contains_key(k) <==> old_trie@.contains_key(k) by {
            if new_trie.reaches(k) {
                let i = new_trie.node_of(k);
                assert(new_trie.shape@.paths[i] == k);
                if i < old_trie.nodes@.len() {
                    assert(old_trie.shape@.paths[i] == k);
                    old_trie.lemma_node_of(i);
                }
            }
            if old_trie.reaches(k) {
                let i = old_trie.node_of(k);
                assert(old_trie.shape@.paths[i] == k);
                assert(new_trie.shape@.paths[i] == k);
                new_trie.lemma_node_of(i);
            }
        }
        assert forall|k: Seq<char>| new_trie@.contains_key(k) implies new_trie@[k]
            == old_trie@[k] by {
            let i = new_trie.node_of(k);
            assert(new_trie.shape@.paths[i] == k);
            assert(i < old_trie.nodes@.len());
            assert(old_trie.shape@.paths[i] == k);
            old_trie.lemma_node_of(i);
        }
        assert(new_trie@ =~= old_trie@);
    }

    /// Marks the node `cur` as the end of a key.
    proof fn lemma_marked(old_trie: &Self, new_trie: &Self, cur: int, key: Seq<char>)
        requires
            old_trie.wf(),
            new_trie.wf(),
            0 <= cur < old_trie.nodes@.len(),
            old_trie.nodes@.len() == new_trie.nodes@.len(),
            old_trie.shape@ == new_trie.shape@,
            old_trie.shape@.paths[cur] == key,
            new_trie.nodes@[cur].is_last,
            forall|i: int|
                0 <= i < old_trie.nodes@.len() && i != cur ==> {
                    &&& (#[trigger] new_trie.nodes@[i]).typ == old_trie.nodes@[i].typ
                    &&& new_trie.nodes@[i].is_last == old_trie.nodes@[i].is_last
                },
        ensures
            forall|p: Seq<char>| #[trigger] new_trie.reaches(p) <==> old_trie.reaches(p),
            new_trie@ == old_trie@.insert(key, new_trie.nodes@[cur].typ),
    {
        assert forall|p: Seq<char>| #[trigger] new_trie.reaches(p) <==> old_trie.reaches(p) by {
            if new_trie.reaches(p) {
                let i = new_trie.node_of(p);
                assert(old_trie.shape@.paths[i] == p);
            }
            if old_trie.reaches(p) {
                let i = old_trie.node_of(p);
                assert(new_trie.shape@.paths[i] == p);
            }
        }
        let target = old_trie@.insert(key, new_trie.nodes@[cur].typ);
        new_trie.lemma_node_of(cur);
        old_trie.lemma_node_of(cur);
        assert forall|k: Seq<char>| new_trie@.contains_key(k) <==> target.contains_key(k) by {
            if new_trie.reaches(k) {
                let i = new_trie.node_of(k);
                assert(new_trie.shape@.paths[i] == k);
                old_trie.lemma_node_of(i);
                new_trie.lemma_node_of(i);
            }
        }
        assert forall|k: Seq<char>| new_trie@.contains_key(k) implies new_trie@[k]
            == target[k] by {
            let i = new_trie.node_of(k);
            assert(new_trie.shape@.paths[i] == k);
            old_trie.lemma_node_of(i);
            new_trie.lemma_node_of(i);
        }
        assert(new_trie@ =~= target);
    }

    /// An empty tree: it has the empty path and no key.
    pub fn new() -> (t: Self)
        ensures
            t.wf(),
            t@ == Map::<Seq<char>, Option<T>>::empty(),
            forall|p: Seq<char>| #[trigger] t.reaches(p) <==> p == Seq::<char>::empty(),
    {
        let mut nodes: Vec<TrieNode<T>> = Vec::new();
        nodes.push(TrieNode::new());
        let t = Trie {
            nodes,
            shape: Ghost(
                TrieShape {
                    paths: seq![Seq::<char>::empty()],
                    parent: seq![0int],
                    slot: seq![0int],
                },
            ),
        };
        proof {
            assert(t.shape@.paths[0] == Seq::<char>::empty());
            assert forall|p: Seq<char>| #[trigger] t.reaches(p) implies p == Seq::<
                char,
            >::empty() by {
                let i = t.node_of(p);
                assert(t.shape@.paths[i] == p);
            }
            assert(t@ =~= Map::<Seq<char>, Option<T>>::empty());
        }
        t
    }

    /// Makes `key` a key of the tree. If it was one already it keeps its
    /// payload, else it has none.
    pub fn _insert(&mut self, key: &str)
        requires
            old(self).wf(),
        ensures
            final(self).wf(),
            final(self)@ == if old(self)@.contains_key(key@) {
                old(self)@
            } else {
                old(self)@.insert(key@, None)
            },
            forall|p: Seq<char>|
                #[trigger] final(self).reaches(p) <==> old(self).reaches(p) || is_prefix_of(p, key@),
    {
        let chars = chars_of(key);
        let cur = self.descend(&chars);
        let ghost mid = *self;
        proof {
            Self::lemma_descend(old(self), &mid, key@);
        }
        self.nodes[cur].is_last = true;
        proof {
            assert(self.nodes@[cur as int].typ == mid.nodes@[cur as int].typ);
            assert(self.nodes@[cur as int].children == mid.nodes@[cur as int].children);
            assert forall|i: int| 0 <= i < mid.nodes@.len() && i != cur implies self.nodes@[i]
                == mid.nodes@[i] by {}
            assert(self.wf());
            Self::lemma_marked(&mid, self, cur as int, key@);
            mid.lemma_node_of(cur as int);
            if old(self)@.contains_key(key@) {
                assert(mid@.contains_key(key@));
                assert(mid.nodes@[cur as int].is_last);
                assert(mid@[key@] == mid.nodes@[cur as int].typ);
                assert(self@ =~= old(self)@);
            } else {
                assert(!mid.nodes@[cur as int].is_last);
            }
        }
    }

    /// Makes `key` a key of the tree, with the payload `typ`.
    pub fn insert(&mut self, key: &str, typ: T)
        requires
            old(self).wf(),
        ensures
            final(self).wf(),
            final(self)@ == old(self)@.insert(key@, Some(typ)),
            forall|p: Seq<char>|
                #[trigger] final(self).reaches(p) <==> old(self).reaches(p) || is_prefix_of(p, key@),
    {
        let chars = chars_of(key);
        let cur = self.descend(&chars);
        let ghost mid = *self;
        proof {
            Self::lemma_descend(old(self), &mid, key@);
        }
        self.nodes[cur].typ = Some(typ);
        self.nodes[cur].is_last = true;
        proof {
            assert(self.nodes@[cur as int].children == mid.nodes@[cur as int].children);
            assert forall|i: int| 0 <= i < mid.nodes@.len() && i != cur implies self.nodes@[i]
                == mid.nodes@[i] by {}
            assert(self.wf());
            Self::lemma_marked(&mid, self, cur as int, key@);
        }
    }

    /// Whether `key` is a key of the tree.
    pub fn search(&self, key: &str) -> (found: bool)
        requires
            self.wf(),
        ensures
            found == self@.contains_key(key@),
    {
        let chars = chars_of(key);
        let (cur, n) = self.walk(&chars, 0, chars.len());
        proof {
            assert(chars@.subrange(0, chars@.len() as int) == chars@);
            self.lemma_whole_path(chars@, cur as int, n as int);
        }
        n == chars.len() && self.nodes[cur].is_last
    }

    /// `walk` followed all of `s` exactly when `s` is a path; the node it
    /// reached is then the node of `s`.
    proof fn lemma_whole_path(&self, s: Seq<char>, cur: int, n: int)
        requires
            self.wf(),
            0 <= cur < self.nodes@.len(),
            0 <= n <= s.len(),
            self.shape@.paths[cur] == s.subrange(0, n),
            n == self.path_len(s, 0),
        ensures
            n == s.len() <==> self.reaches(s),
            n == s.len() ==> self.node_of(s) == cur,
    {
        if n == s.len() {
            assert(s.subrange(0, n) == s);
            self.lemma_node_of(cur);
        } else if self.reaches(s) {
            self.lemma_path_len_full(s, 0);
        }
    }

    /// If `s` is a path, the longest prefix of `s` that is a path is `s`.
    proof fn lemma_path_len_full(&self, s: Seq<char>, i: int)
        requires
            self.wf(),
            self.reaches(s),
            0 <= i <= s.len(),
        ensures
            self.path_len(s, i) == s.len(),
        decreases s.len() - i,
    {
        if i < s.len() {
            self.lemma_reaches_prefixes(s, i + 1);
            self.lemma_path_len_full(s, i + 1);
        }
    }

    /// Every prefix of a path is a path.
    pub proof fn lemma_reaches_prefixes(&self, s: Seq<char>, m: int)
        requires
            self.wf(),
            self.reaches(s),
            0 <= m <= s.len(),
        ensures
            self.reaches(s.subrange(0, m)),
        decreases s.len() - m,
    {
        if m == s.len() {
            assert(s.subrange(0, m) == s);
        } else {
            self.lemma_reaches_prefixes(s, m + 1);
            self.lemma_reaches_prefix(s.subrange(0, m + 1));
            assert(s.subrange(0, m + 1).drop_last() == s.subrange(0, m));
        }
    }

    /// Keyword matching on `sql`.
    pub fn _match_keyword(&self, sql: &str) -> (r: Option<usize>)
        requires
            self.wf(),
        ensures
            r == self.match_keyword_spec(sql@),
    {
        let chars = chars_of(sql);
        proof {
            assert(chars@.subrange(0, chars@.len() as int) == chars@);
        }
        let (best, _node) = self.scan_keyword(&chars, 0);
        if best > 0 {
            Some(best)
        } else {
            None
        }
    }
}

impl<T: Clone> Trie<T> {
    /// The payload of `key`, if `key` is a key of the tree and has one.
    pub fn find(&self, key: &str) -> (r: Option<T>)
        requires
            self.wf(),
        ensures
            r is Some <==> self.payload(key@) is Some,
            r is Some ==> cloned(self.payload(key@)->0, r->0),
    {
        let chars = chars_of(key);
        let (cur, n) = self.walk(&chars, 0, chars.len());
        proof {
            assert(chars@.subrange(0, chars@.len() as int) == chars@);
            self.lemma_whole_path(chars@, cur as int, n as int);
        }
        if n == chars.len() && self.nodes[cur].is_last {
            match &self.nodes[cur].typ {
                Some(t) => Some(t.clone()),
                None => None,
            }
        } else {
            None
        }
    }
}

impl<T> Default for Trie<T> {
    fn default() -> (t: Self)
        ensures
            t.wf(),
            t@ == Map::<Seq<char>, Option<T>>::empty(),
            forall|p: Seq<char>| #[trigger] t.reaches(p) <==> p == Seq::<char>::empty(),
    {
        Trie::new()
    }
}

pub type TokenTypeTrie = Trie<TokenType>;

impl Trie<TokenType> {
    /// What token matching gives on `s`: the length, in characters, and the
    /// payload of the longest prefix of `s` that is a key of three
    /// characters or more and has a boundary character or the end of `s`
    /// behind it; where `s` has no such prefix, what name matching gives on
    /// `s`.
    pub open spec fn match_token_spec(&self, s: Seq<char>) -> Option<(usize, Option<TokenType>)> {
        let k = self.keyword_len(s, s.len() as int);
        if k > 0 {
            Some((k as usize, self@[s.subrange(0, k)]))
        } else {
            match_name_spec(s)
        }
    }

    /// Token matching on `chars[start..]`.
    pub fn match_chars(&self, chars: &Vec<char>, start: usize) -> (r: Option<
        (usize, Option<TokenType>),
    >)
        requires
            self.wf(),
            start <= chars@.len(),
        ensures
            r == self.match_token_spec(chars@.subrange(start as int, chars@.len() as int)),
            r is Some ==> start + (r->0).0 <= chars@.len(),
    {
        let ghost s = chars@.subrange(start as int, chars@.len() as int);
        let (best, node) = self.scan_keyword(chars, start);
        if best > 0 {
            proof {
                assert(s.subrange(0, best as int) == chars@.subrange(start as int, start + best));
                self.lemma_node_of(node as int);
            }
            Some((best, self.nodes[node].typ))
        } else {
            match match_name_at(chars, start) {
                Some(m) => {
                    proof {
                        assert(word_end(s, 0) <= s.len()) by {
                            lemma_word_end_bound(s, 0);
                        }
                    }
                    Some((m, Some(TokenType::Name)))
                },
                None => None,
            }
        }
    }

    /// The payload of the key `chars[start..end]`, if that is a key of the
    /// tree and has one.
    pub fn lookup(&self, chars: &Vec<char>, start: usize, end: usize) -> (r: Option<TokenType>)
        requires
            self.wf(),
            start <= end <= chars@.len(),
        ensures
            r == self.payload(chars@.subrange(start as int, end as int)),
    {
        let ghost s = chars@.subrange(start as int, end as int);
        let (cur, n) = self.walk(chars, start, end);
        proof {
            assert(s.subrange(0, n as int) == chars@.subrange(start as int, start + n));
            self.lemma_whole_path(s, cur as int, n as int);
            self.lemma_node_of(cur as int);
        }
        if start + n == end && self.nodes[cur].is_last {
            self.nodes[cur].typ
        } else {
            None
        }
    }

    /// Token matching on `sql`.
    pub fn match_token(&self, sql: &str) -> (r: Option<(usize, Option<TokenType>)>)
        requires
            self.wf(),
        ensures
            r == self.match_token_spec(sql@),
    {
        let chars = chars_of(sql);
        assert(chars@.subrange(0, chars@.len() as int) == chars@);
        self.match_chars(&chars, 0)
    }
}

/// `word_end` stays within the sequence.
pub proof fn lemma_word_end_bound(s: Seq<char>, i: int)
    requires
        0 <= i <= s.len(),
    ensures
        i <= word_end(s, i) <= s.len(),
    decreases s.len() - i,
{
    if i < s.len() && is_word_char(s[i]) {
        lemma_word_end_bound(s, i + 1);
    }
}

} // verus!
