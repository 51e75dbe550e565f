//! The syntax tree: an append-only arena of nodes addressed by ids, with
//! the well-formedness notions the parser maintains.

use vstd::prelude::*;
use crate::errors::{ErrModel, ErrorType, ShorkError, matches_err};
use crate::strutil::chars_to_string;
use crate::tokens::{Token, TokenModel};

verus! {

/// The mathematical model of a node: its id, the token that labels it,
/// the id of its parent, and the ids of its children in order.
pub struct NodeModel {
    pub id: int,
    pub val: TokenModel,
    pub parent: Option<int>,
    pub children: Seq<int>,
}

/// A node with an ID
#[derive(Debug, PartialEq)]
pub struct Node {
    id: usize,
    val: Token,
    parent: Option<usize>,
    children: Vec<usize>,
}

impl View for Node {
    type V = NodeModel;

    closed spec fn view(&self) -> NodeModel {
        NodeModel {
            id: self.id as int,
            val: self.val@,
            parent: match self.parent {
                Some(p) => Some(p as int),
                None => None,
            },
            children: self.children@.map_values(|c: usize| c as int),
        }
    }
}

impl Clone for Node {
    fn clone(&self) -> (r: Node)
        ensures
            r@ == self@,
    {
        let r = Node {
            id: self.id,
            val: self.val.clone(),
            parent: self.parent,
            children: self.children.clone(),
        };
        proof {
            assert(r@.children =~= self@.children);
            assert(r@ =~= self@);
        }
        r
    }
}

impl Node {
    /// create a new node
    pub fn new(id: usize, val: Token, parent: Option<usize>, children: Vec<usize>) -> (n: Node)
        ensures
            n@ == (NodeModel {
                id: id as int,
                val: val@,
                parent: match parent {
                    Some(p) => Some(p as int),
                    None => None,
                },
                children: children@.map_values(|c: usize| c as int),
            }),
    {
        Node { id, val, parent, children }
    }

    /// set the parent
    pub fn set_parent(&mut self, parent: Option<usize>)
        ensures
            final(self)@ == (NodeModel {
                parent: match parent {
                    Some(p) => Some(p as int),
                    None => None,
                },
                ..old(self)@
            }),
    {
        self.parent = parent
    }

    /// add a child node
    pub fn add_child(&mut self, id: usize)
        ensures
            final(self)@ == (NodeModel {
                children: old(self)@.children.push(id as int),
                ..old(self)@
            }),
    {
        self.children.push(id);
        proof {
            assert(self@.children =~= old(self)@.children.push(id as int));
        }
    }

    /// get the nodes value
    pub fn val(&self) -> (v: &Token)
        ensures
            v@ == self@.val,
    {
        &self.val
    }

    /// get the nodes ID
    pub fn id(&self) -> (i: usize)
        ensures
            i as int == self@.id,
    {
        self.id
    }

    /// get the nodes parent
    pub fn parent(&self) -> (p: Option<usize>)
        ensures
            self@.parent == match p {
                Some(v) => Some(v as int),
                None => None::<int>,
            },
    {
        self.parent
    }

    /// get the nodes children
    pub fn children(&self) -> (c: &Vec<usize>)
        ensures
            c@.map_values(|x: usize| x as int) == self@.children,
    {
        &self.children
    }
}

/// Whether no two nodes of an arena share an id.
pub open spec fn ids_unique(a: Seq<NodeModel>) -> bool {
    forall|i: int, j: int| 0 <= i < j < a.len() ==> a[i].id != a[j].id
}

/// The first index whose node carries the given id, or the arena's length.
pub open spec fn index_of_id(a: Seq<NodeModel>, id: int, i: int) -> int
    decreases a.len() - i,
{
    if i < 0 || i >= a.len() {
        a.len() as int
    } else if a[i].id == id {
        i
    } else {
        index_of_id(a, id, i + 1)
    }
}

pub proof fn lemma_index_of_id(a: Seq<NodeModel>, id: int, i: int)
    requires
        0 <= i <= a.len(),
    ensures
        i <= index_of_id(a, id, i) <= a.len(),
        index_of_id(a, id, i) < a.len() ==> a[index_of_id(a, id, i)].id == id,
        (index_of_id(a, id, i) == a.len()) == (forall|j: int| i <= j < a.len() ==> a[j].id != id),
    decreases a.len() - i,
{
    if i < a.len() && a[i].id != id {
        lemma_index_of_id(a, id, i + 1);
    }
}

/// Whether a child id named in a node's list points back: some node has
/// that id and names the first node as its parent.
pub open spec fn child_link_ok(a: Seq<NodeModel>, pid: int, cid: int) -> bool {
    exists|j: int| 0 <= j < a.len() && a[j].id == cid && a[j].parent == Some(pid)
}

/// Whether a parent id points back: some node has that id and lists the
/// first node among its children.
pub open spec fn parent_link_ok(a: Seq<NodeModel>, cid: int, pid: int) -> bool {
    exists|j: int| 0 <= j < a.len() && a[j].id == pid && a[j].children.contains(cid)
}

/// Whether every parent/child link of the arena exists and agrees in both
/// directions.
pub open spec fn links_consistent(a: Seq<NodeModel>) -> bool {
    &&& forall|i: int, k: int|
        0 <= i < a.len() && 0 <= k < a[i].children.len() ==> child_link_ok(
            a,
            a[i].id,
            #[trigger] a[i].children[k],
        )
    &&& forall|i: int|
        0 <= i < a.len() && a[i].parent is Some ==> parent_link_ok(
            a,
            a[i].id,
            (#[trigger] a[i].parent)->0,
        )
}

/// A well-formed arena: unique ids and consistent links.
pub open spec fn wf_arena(a: Seq<NodeModel>) -> bool {
    ids_unique(a) && links_consistent(a)
}

/// The ids of the nodes without a parent, in arena order.
pub open spec fn roots_of(a: Seq<NodeModel>) -> Seq<int>
    decreases a.len(),
{
    if a.len() == 0 {
        Seq::empty()
    } else {
        roots_of(a.drop_last()) + if a.last().parent is None {
            seq![a.last().id]
        } else {
            Seq::empty()
        }
    }
}

/// An arena with every parentless node handed the given parent id.
pub open spec fn reparent(a: Seq<NodeModel>, root_id: int) -> Seq<NodeModel> {
    Seq::new(
        a.len(),
        |i: int|
            if a[i].parent is None {
                NodeModel { parent: Some(root_id), ..a[i] }
            } else {
                a[i]
            },
    )
}

/// Represents an Abstract Syntax Tree
#[derive(Debug, PartialEq)]
pub struct AST {
    arena: Vec<Node>,
}

impl View for AST {
    type V = Seq<NodeModel>;

    closed spec fn view(&self) -> Seq<NodeModel> {
        self.arena@.map_values(|n: Node| n@)
    }
}

impl Clone for AST {
    fn clone(&self) -> (r: AST)
        ensures
            r@ == self@,
    {
        let mut arena: Vec<Node> = Vec::new();
        let mut i: usize = 0;
        while i < self.arena.len()
            invariant
                i <= self.arena@.len(),
                arena@.len() == i,
                forall|j: int| 0 <= j < i ==> (#[trigger] arena@[j])@ == self.arena@[j]@,
            decreases self.arena@.len() - i,
        {
            arena.push(self.arena[i].clone());
            i = i + 1;
        }
        let r = AST { arena };
        proof {
            assert forall|j: int| 0 <= j < r@.len() implies r@[j] == self@[j] by {
                assert(r@[j] == r.arena@[j]@);
                assert(self@[j] == self.arena@[j]@);
            }
            assert(r@ =~= self@);
        }
        r
    }
}

impl AST {
    /// create a new AST
    pub fn new() -> (t: AST)
        ensures
            t@ == Seq::<NodeModel>::empty(),
    {
        let t = AST { arena: Vec::new() };
        proof {
            assert(t@ =~= Seq::<NodeModel>::empty());
        }
        t
    }

    /// add a node to the arena
    pub fn add(&mut self, n: Node)
        ensures
            final(self)@ == old(self)@.push(n@),
    {
        self.arena.push(n);
        proof {
            assert(self@ =~= old(self)@.push(self.arena@.last()@));
        }
    }

    /// add all nodes of this tree to another tree
    pub fn clone_into_tree(&self, other: &mut AST)
        ensures
            final(other)@ == old(other)@ + self@,
    {
        let mut i: usize = 0;
        while i < self.arena.len()
            invariant
                i <= self.arena@.len(),
                other@ == old(other)@ + self@.take(i as int),
                self@ == self.arena@.map_values(|n: Node| n@),
            decreases self.arena@.len() - i,
        {
            let n = self.arena[i].clone();
            other.add(n);
            i = i + 1;
            proof {
                assert(other@ =~= old(other)@ + self@.take(i as int));
            }
        }
        proof {
            assert(self@.take(i as int) =~= self@);
        }
    }

    /// give all current root nodes the given id as a parent
    pub fn set_root_all(&mut self, root_id: usize)
        ensures
            final(self)@ == reparent(old(self)@, root_id as int),
    {
        let n = self.arena.len();
        let mut i: usize = 0;
        while i < n
            invariant
                i <= n,
                n == self.arena@.len(),
                self@.len() == n,
                old(self)@.len() == n,
                forall|j: int| 0 <= j < i ==> self@[j] == reparent(old(self)@, root_id as int)[j],
                forall|j: int| i <= j < n ==> self@[j] == old(self)@[j],
            decreases n - i,
        {
            let ghost pre = self@;
            let ghost pre_arena = self.arena@;
            proof {
                assert(pre[i as int] == old(self)@[i as int]);
                assert(pre[i as int] == pre_arena[i as int]@);
            }
            let is_root = matches!(self.arena[i].parent(), Option::None);
            if is_root {
                let node = &mut self.arena[i];
                node.set_parent(Some(root_id));
                proof {
                    assert(self@[i as int] == self.arena@[i as int]@);
                    assert(self@[i as int] == (NodeModel {
                        parent: Some(root_id as int),
                        ..pre[i as int]
                    }));
                }
            } else {
                proof {
                    assert(pre[i as int].parent is Some);
                    assert(self@[i as int] == pre[i as int]);
                }
            }
            proof {
                assert forall|j: int| 0 <= j < n && j != i implies self@[j] == pre[j] by {
                    assert(self.arena@[j] == pre_arena[j]);
                    assert(self@[j] == self.arena@[j]@);
                    assert(pre[j] == pre_arena[j]@);
                }
                assert(self@[i as int] == reparent(old(self)@, root_id as int)[i as int]);
                assert forall|j: int| 0 <= j < i + 1 implies self@[j] == reparent(
                    old(self)@,
                    root_id as int,
                )[j] by {
                    if j < i {
                        assert(self@[j] == pre[j]);
                        assert(pre[j] == reparent(old(self)@, root_id as int)[j]);
                    }
                }
            }
            i = i + 1;
        }
        proof {
            assert(self@ =~= reparent(old(self)@, root_id as int));
        }
    }

    /// get a node from an id
    pub fn get(&self, id: usize) -> (r: Result<&Node, ShorkError>)
        ensures
            ({
                let idx = index_of_id(self@, id as int, 0);
                match r {
                    Ok(n) => idx < self@.len() && n@ == self@[idx],
                    Err(e) => idx == self@.len() && matches_err(
                        e,
                        ErrModel {
                            e_type: ErrorType::ParserError,
                            position: 0,
                            message: "Failed to find Node in AST. This is an error by the interpreter and not in your source code"@,
                        },
                        Seq::<char>::empty(),
                    ),
                }
            }),
    {
        proof {
            lemma_index_of_id(self@, id as int, 0);
        }
        let n = self.arena.len();
        let mut i: usize = 0;
        while i < n
            invariant
                i <= n,
                n == self.arena@.len(),
                self@ == self.arena@.map_values(|x: Node| x@),
                index_of_id(self@, id as int, 0) == index_of_id(self@, id as int, i as int),
            decreases n - i,
        {
            if self.arena[i].id() == id {
                return Ok(&self.arena[i]);
            }
            i = i + 1;
        }
        let v: Vec<char> = Vec::new();
        let empty_source = chars_to_string(&v);
        let msg = crate::strutil::str_to_string(
            "Failed to find Node in AST. This is an error by the interpreter and not in your source code",
        );
        Err(ShorkError::generate_error(ErrorType::ParserError, 0, empty_source, msg))
    }

    /// the position, in the arena, of the node with an id
    pub fn position_of(&self, id: usize) -> (r: Option<usize>)
        ensures
            ({
                let idx = index_of_id(self@, id as int, 0);
                match r {
                    Some(i) => i as int == idx && idx < self@.len(),
                    None => idx == self@.len(),
                }
            }),
    {
        proof {
            lemma_index_of_id(self@, id as int, 0);
        }
        let n = self.arena.len();
        let mut i: usize = 0;
        while i < n
            invariant
                i <= n,
                n == self.arena@.len(),
                self@ == self.arena@.map_values(|x: Node| x@),
                index_of_id(self@, id as int, 0) == index_of_id(self@, id as int, i as int),
            decreases n - i,
        {
            if self.arena[i].id() == id {
                return Some(i);
            }
            i = i + 1;
        }
        None
    }

    /// get a mutable node from an id
    pub fn get_mut(&mut self, id: usize) -> (r: Result<&mut Node, ShorkError>)
        ensures
            ({
                let idx = index_of_id(old(self)@, id as int, 0);
                match r {
                    Ok(n) => idx < old(self)@.len() && (*n)@ == old(self)@[idx] && final(self)@
                        == old(self)@.update(idx, final(n)@),
                    Err(e) => idx == old(self)@.len() && final(self)@ == old(self)@ && matches_err(
                        e,
                        ErrModel {
                            e_type: ErrorType::ParserError,
                            position: 0,
                            message: "Failed to find Node in AST. This is an error by the interpreter and not in your source code"@,
                        },
                        Seq::<char>::empty(),
                    ),
                }
            }),
    {
        let idx_opt = self.position_of(id);
        match idx_opt {
            Some(i) => {
                let n = &mut self.arena[i];
                Ok(n)
            },
            None => {
                let v: Vec<char> = Vec::new();
                let empty_source = chars_to_string(&v);
                let msg = crate::strutil::str_to_string(
                    "Failed to find Node in AST. This is an error by the interpreter and not in your source code",
                );
                Err(ShorkError::generate_error(ErrorType::ParserError, 0, empty_source, msg))
            },
        }
    }

    /// get the siblings of a node. Includes the node itself
    pub fn siblings(&self, n: &Node) -> (r: Result<Vec<usize>, ShorkError>)
        ensures
            ({
                match r {
                    Ok(v) => n@.parent matches Some(p) && index_of_id(self@, p, 0) < self@.len()
                        && v@.map_values(|x: usize| x as int) == self@[index_of_id(
                        self@,
                        p,
                        0,
                    )].children,
                    Err(e) => (n@.parent is None && matches_err(
                        e,
                        ErrModel {
                            e_type: ErrorType::ParserError,
                            position: 0,
                            message: "Requested node siblings on root node. This is an error by the interpreter and not in your source code"@,
                        },
                        Seq::<char>::empty(),
                    )) || (n@.parent matches Some(p) && index_of_id(self@, p, 0) == self@.len()
                        && matches_err(
                        e,
                        ErrModel {
                            e_type: ErrorType::ParserError,
                            position: 0,
                            message: "Failed to find Node in AST. This is an error by the interpreter and not in your source code"@,
                        },
                        Seq::<char>::empty(),
                    )),
                }
            }),
    {
        let p = n.parent();
        match p {
            None => {
                let v: Vec<char> = Vec::new();
                let empty_source = chars_to_string(&v);
                let msg = crate::strutil::str_to_string(
                    "Requested node siblings on root node. This is an error by the interpreter and not in your source code",
                );
                Err(ShorkError::generate_error(ErrorType::ParserError, 0, empty_source, msg))
            },
            Some(pid) => {
                let p_n = self.get(pid)?;
                let ch = p_n.children();
                let v = ch.clone();
                proof {
                    assert(v@ =~= ch@);
                }
                Ok(v)
            },
        }
    }

    /// the number of nodes in the arena
    pub fn node_count(&self) -> (n: usize)
        ensures
            n == self@.len(),
    {
        self.arena.len()
    }

    /// get the root node(s)
    pub fn root(&self) -> (r: Vec<usize>)
        ensures
            r@.map_values(|x: usize| x as int) == roots_of(self@),
    {
        let mut n_vec: Vec<usize> = Vec::new();
        let n = self.arena.len();
        let mut i: usize = 0;
        while i < n
            invariant
                i <= n,
                n == self.arena@.len(),
                self@ == self.arena@.map_values(|x: Node| x@),
                n_vec@.map_values(|x: usize| x as int) == roots_of(self@.take(i as int)),
            decreases n - i,
        {
            let is_root = matches!(self.arena[i].parent(), Option::None);
            let ghost pre = n_vec@;
            if is_root {
                let node_id = self.arena[i].id();
                n_vec.push(node_id);
            }
            i = i + 1;
            proof {
                assert(self@.take(i as int).drop_last() =~= self@.take(i as int - 1));
                assert(self@.take(i as int).last() == self@[i as int - 1]);
                assert(n_vec@.map_values(|x: usize| x as int) =~= roots_of(self@.take(i as int)));
            }
        }
        proof {
            assert(self@.take(i as int) =~= self@);
        }
        n_vec
    }
}

} // verus!
