//! The level data that the queries read: planes, the nodes of the
//! visibility tree and of the clip tree, and the leaves.

use vstd::prelude::*;
use crate::bsp_file::MipTex;
use crate::contents::LeafContents;
use crate::tree::{BspQueryNode, Plane, Tree};
use crate::vec3::Vec3;

verus! {

/// A leaf of the visibility tree.
#[derive(Clone, Copy, Debug)]
pub struct Leaf {
    pub contents: LeafContents,
    pub vis_offset: i32,
    pub mins: Vec3,
    pub maxs: Vec3,
    pub first_mark_surface: u32,
    pub num_mark_surfaces: u32,
}

/// A node of the visibility tree. A negative child `c` is the leaf
/// `-(c + 1)`.
#[derive(Clone, Copy, Debug)]
pub struct Node {
    pub plane_index: u32,
    pub children: [i32; 2],
    pub mins: Vec3,
    pub maxs: Vec3,
    pub first_surf: u32,
    pub num_surf: u32,
}

/// A node of the clip tree. A negative child is a content code.
#[derive(Clone, Copy, Debug)]
pub struct ClipNode {
    pub plane_index: u32,
    pub children: [i32; 2],
}

/// A loaded level.
pub struct Bsp {
    pub planes: Vec<Plane>,
    pub nodes: Vec<Node>,
    pub clip_nodes: Vec<ClipNode>,
    pub leafs: Vec<Leaf>,
    pub textures: Vec<MipTex>,
}

impl Bsp {
    /// The visibility tree of the level.
    pub open spec fn vis_tree(&self) -> Tree {
        Tree {
            nodes: Seq::new(
                self.nodes@.len(),
                |i: int|
                    BspQueryNode {
                        plane_index: self.nodes@[i].plane_index as usize,
                        children: self.nodes@[i].children,
                    },
            ),
            planes: self.planes@,
            contents: Seq::new(self.leafs@.len(), |i: int| self.leafs@[i].contents),
        }
    }

    /// The clip tree of the level.
    pub open spec fn clip_tree(&self) -> Tree {
        Tree {
            nodes: Seq::new(
                self.clip_nodes@.len(),
                |i: int|
                    BspQueryNode {
                        plane_index: self.clip_nodes@[i].plane_index as usize,
                        children: self.clip_nodes@[i].children,
                    },
            ),
            planes: self.planes@,
            contents: LeafContents::all_kinds(),
        }
    }
}

} // verus!
