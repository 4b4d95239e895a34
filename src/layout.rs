use vstd::prelude::*;

use crate::asc::{
    bytes_image, encode_bytes, encode_string, holds_at, push_u32, string_image, u32_le, utf16_of,
    AscError,
};
use crate::heap::{AscHeap, GuestAllocator, HeapError, MAX_OBJECT_SIZE};

verus! {

/// A guest object: nothing (the null pointer), a word stored in place, a
/// byte array, a string, or a record of slots.
pub enum Obj {
    Null,
    Word(u32),
    Bytes(Seq<u8>),
    Str(Seq<char>),
    Record(Seq<Obj>),
}

/// The executable form of a guest object.
#[derive(Debug)]
pub enum Tree {
    Null,
    Word(u32),
    Bytes(Vec<u8>),
    Str(String),
    Record(Vec<Tree>),
}

/// What a tree stands for, looked at to depth `d`.
pub open spec fn tree_obj(t: Tree, d: nat) -> Obj
    decreases d,
{
    if d == 0 {
        Obj::Null
    } else {
        match t {
            Tree::Null => Obj::Null,
            Tree::Word(w) => Obj::Word(w),
            Tree::Bytes(b) => Obj::Bytes(b@),
            Tree::Str(x) => Obj::Str(x@),
            Tree::Record(cs) => Obj::Record(Seq::new(cs@.len(), |i: int| tree_obj(cs@[i], (d - 1) as nat))),
        }
    }
}

/// The bytes that `o` takes, looked at to depth `d`: a record takes a word
/// per slot and then its slots' objects; a word or null takes no room of its own.
pub open spec fn obj_size(o: Obj, d: nat) -> nat
    decreases d, 0nat,
{
    match o {
        Obj::Bytes(b) => b.len() + 4,
        Obj::Str(x) => 2 * utf16_of(x).len() + 4,
        Obj::Record(cs) => if d == 0 {
            0
        } else {
            4 * cs.len() + objs_size(cs, (d - 1) as nat)
        },
        _ => 0,
    }
}

/// The bytes that the objects of `cs` take, one after another.
pub open spec fn objs_size(cs: Seq<Obj>, d: nat) -> nat
    decreases d, cs.len(),
{
    if cs.len() == 0 {
        0
    } else {
        objs_size(cs.drop_last(), d) + obj_size(cs.last(), d)
    }
}

/// The word a record holds for slot `o` whose object, if any, is at `at`.
pub open spec fn slot_word(o: Obj, at: int) -> u32 {
    match o {
        Obj::Null => 0,
        Obj::Word(w) => w,
        _ => at as u32,
    }
}

/// The words of a record whose slots' objects follow from `base` on.
pub open spec fn slot_words(cs: Seq<Obj>, base: int, d: nat) -> Seq<u8>
    decreases cs.len(),
{
    if cs.len() == 0 {
        Seq::empty()
    } else {
        slot_words(cs.drop_last(), base, d) + u32_le(slot_word(cs.last(), base + objs_size(cs.drop_last(), d)))
    }
}

/// The image of `o` placed at `p`.
pub open spec fn obj_image(o: Obj, p: int, d: nat) -> Seq<u8>
    decreases d, 0nat,
{
    match o {
        Obj::Bytes(b) => encode_bytes(b),
        Obj::Str(x) => encode_string(x),
        Obj::Record(cs) => if d == 0 {
            Seq::empty()
        } else {
            slot_words(cs, p + 4 * cs.len(), (d - 1) as nat) + objs_image(cs, p + 4 * cs.len(), (d - 1) as nat)
        },
        _ => Seq::empty(),
    }
}

/// The images of the objects of `cs`, one after another from `base` on.
pub open spec fn objs_image(cs: Seq<Obj>, base: int, d: nat) -> Seq<u8>
    decreases d, cs.len(),
{
    if cs.len() == 0 {
        Seq::empty()
    } else {
        objs_image(cs.drop_last(), base, d) + obj_image(cs.last(), base + objs_size(cs.drop_last(), d), d)
    }
}

proof fn lemma_objs_size_prefix(cs: Seq<Obj>, d: nat, i: int)
    requires
        0 <= i <= cs.len(),
    ensures
        objs_size(cs.subrange(0, i), d) <= objs_size(cs, d),
    decreases cs.len(),
{
    if i < cs.len() {
        let init = cs.drop_last();
        lemma_objs_size_prefix(init, d, i);
        assert(init.subrange(0, i) =~= cs.subrange(0, i));
    } else {
        assert(cs.subrange(0, i) =~= cs);
    }
}

proof fn lemma_objs_step(cs: Seq<Obj>, d: nat, base: int, i: int)
    requires
        0 <= i < cs.len(),
    ensures
        objs_size(cs.subrange(0, i + 1), d) == objs_size(cs.subrange(0, i), d) + obj_size(cs[i], d),
        slot_words(cs.subrange(0, i + 1), base, d) == slot_words(cs.subrange(0, i), base, d) + u32_le(
            slot_word(cs[i], base + objs_size(cs.subrange(0, i), d)),
        ),
        objs_image(cs.subrange(0, i + 1), base, d) == objs_image(cs.subrange(0, i), base, d) + obj_image(
            cs[i],
            base + objs_size(cs.subrange(0, i), d),
            d,
        ),
{
    let post = cs.subrange(0, i + 1);
    assert(post.drop_last() =~= cs.subrange(0, i));
    assert(post.last() == cs[i]);
}

proof fn lemma_image_len(o: Obj, p: int, d: nat)
    ensures
        obj_image(o, p, d).len() == obj_size(o, d),
    decreases d, 0nat,
{
    match o {
        Obj::Record(cs) => if d > 0 {
            lemma_images_len(cs, p + 4 * cs.len(), (d - 1) as nat);
            lemma_words_len(cs, p + 4 * cs.len(), (d - 1) as nat);
        },
        _ => {},
    }
}

proof fn lemma_images_len(cs: Seq<Obj>, base: int, d: nat)
    ensures
        objs_image(cs, base, d).len() == objs_size(cs, d),
    decreases d, cs.len(),
{
    if cs.len() > 0 {
        lemma_images_len(cs.drop_last(), base, d);
        lemma_image_len(cs.last(), base + objs_size(cs.drop_last(), d), d);
    }
}

proof fn lemma_words_len(cs: Seq<Obj>, base: int, d: nat)
    ensures
        slot_words(cs, base, d).len() == 4 * cs.len(),
    decreases cs.len(),
{
    if cs.len() > 0 {
        lemma_words_len(cs.drop_last(), base, d);
    }
}

/// The size of the image of `t`; `None` where it exceeds `MAX_OBJECT_SIZE`.
pub fn tree_size(t: &Tree, d: usize) -> (r: Option<usize>)
    ensures
        match r {
            Some(n) => n == obj_size(tree_obj(*t, d as nat), d as nat) && n <= MAX_OBJECT_SIZE,
            None => obj_size(tree_obj(*t, d as nat), d as nat) > MAX_OBJECT_SIZE,
        },
    decreases d,
{
    if d == 0 {
        return Some(0);
    }
    match t {
        Tree::Null => Some(0),
        Tree::Word(_) => Some(0),
        Tree::Bytes(b) => if b.len() > MAX_OBJECT_SIZE - 4 {
            None
        } else {
            Some(b.len() + 4)
        },
        Tree::Str(x) => match string_image(x.as_str()) {
            Some(img) => Some(img.len()),
            None => None,
        },
        Tree::Record(cs) => {
            let ghost os = match tree_obj(*t, d as nat) {
                Obj::Record(x) => x,
                _ => Seq::empty(),
            };
            assert(os.len() == cs@.len());
            if cs.len() > MAX_OBJECT_SIZE / 4 {
                return None;
            }
            let mut total: usize = 4 * cs.len();
            let mut i: usize = 0;
            while i < cs.len()
                invariant
                    0 <= i <= cs@.len(),
                    cs@.len() <= MAX_OBJECT_SIZE / 4,
                    d > 0,
                    tree_obj(*t, d as nat) == Obj::Record(os),
                    os.len() == cs@.len(),
                    forall|j: int| 0 <= j < os.len() ==> os[j] == tree_obj(#[trigger] cs@[j], (d - 1) as nat),
                    total == 4 * cs@.len() + objs_size(os.subrange(0, i as int), (d - 1) as nat),
                    total <= MAX_OBJECT_SIZE,
                decreases cs@.len() - i,
            {
                proof {
                    lemma_objs_step(os, (d - 1) as nat, 0, i as int);
                    lemma_objs_size_prefix(os, (d - 1) as nat, i + 1);
                }
                match tree_size(&cs[i], d - 1) {
                    Some(n) => {
                        if n > MAX_OBJECT_SIZE - total {
                            return None;
                        }
                        total = total + n;
                    },
                    None => {
                        return None;
                    },
                }
                i = i + 1;
            }
            assert(os.subrange(0, cs@.len() as int) =~= os);
            Some(total)
        },
    }
}

/// Appends the image of `t` placed at `p`.
pub fn build_tree(t: &Tree, p: u32, d: usize, out: &mut Vec<u8>)
    requires
        p + obj_size(tree_obj(*t, d as nat), d as nat) <= u32::MAX,
        obj_size(tree_obj(*t, d as nat), d as nat) <= MAX_OBJECT_SIZE,
    ensures
        final(out)@ == old(out)@ + obj_image(tree_obj(*t, d as nat), p as int, d as nat),
    decreases d,
{
    if d == 0 {
        assert(final(out)@ =~= old(out)@ + obj_image(tree_obj(*t, d as nat), p as int, d as nat));
        return;
    }
    match t {
        Tree::Null => {
            assert(out@ =~= old(out)@ + obj_image(tree_obj(*t, d as nat), p as int, d as nat));
        },
        Tree::Word(_) => {
            assert(out@ =~= old(out)@ + obj_image(tree_obj(*t, d as nat), p as int, d as nat));
        },
        Tree::Bytes(b) => {
            let img = bytes_image(b.as_slice());
            crate::entity_abi::append_bytes(out, &img);
        },
        Tree::Str(x) => {
            match string_image(x.as_str()) {
                Some(img) => crate::entity_abi::append_bytes(out, &img),
                None => {},
            }
        },
        Tree::Record(cs) => {
            let ghost dd = (d - 1) as nat;
            let ghost os = match tree_obj(*t, d as nat) {
                Obj::Record(x) => x,
                _ => Seq::empty(),
            };
            assert(os.len() == cs@.len());
            let n = cs.len();
            let base = p + 4 * (n as u32);
            let ghost start = out@;
            let mut at: u32 = base;
            let mut i: usize = 0;
            while i < n
                invariant
                    0 <= i <= n,
                    n == cs@.len(),
                    dd == d - 1,
                    d > 0,
                    tree_obj(*t, d as nat) == Obj::Record(os),
                    os.len() == cs@.len(),
                    forall|j: int| 0 <= j < os.len() ==> os[j] == tree_obj(#[trigger] cs@[j], dd),
                    base == p + 4 * n,
                    p + 4 * n + objs_size(os, dd) <= u32::MAX,
                    4 * n + objs_size(os, dd) <= MAX_OBJECT_SIZE,
                    at == base + objs_size(os.subrange(0, i as int), dd),
                    out@ == start + slot_words(os.subrange(0, i as int), base as int, dd),
                decreases n - i,
            {
                proof {
                    lemma_objs_step(os, dd, base as int, i as int);
                    lemma_objs_size_prefix(os, dd, i + 1);
                }
                let c = &cs[i];
                let word: u32 = match c {
                    Tree::Null => 0,
                    Tree::Word(w) => *w,
                    _ => at,
                };
                assert(d - 1 > 0 ==> word == slot_word(os[i as int], at as int));
                let sz = match tree_size(c, d - 1) {
                    Some(k) => k,
                    None => {
                        assert(false);
                        0
                    },
                };
                push_u32(out, if d - 1 == 0 { 0 } else { word });
                at = at + sz as u32;
                i = i + 1;
            }
            assert(os.subrange(0, n as int) =~= os);
            let ghost mid = out@;
            let mut at: u32 = base;
            let mut i: usize = 0;
            while i < n
                invariant
                    0 <= i <= n,
                    n == cs@.len(),
                    dd == d - 1,
                    d > 0,
                    tree_obj(*t, d as nat) == Obj::Record(os),
                    os.len() == cs@.len(),
                    forall|j: int| 0 <= j < os.len() ==> os[j] == tree_obj(#[trigger] cs@[j], dd),
                    base == p + 4 * n,
                    p + 4 * n + objs_size(os, dd) <= u32::MAX,
                    4 * n + objs_size(os, dd) <= MAX_OBJECT_SIZE,
                    at == base + objs_size(os.subrange(0, i as int), dd),
                    out@ == mid + objs_image(os.subrange(0, i as int), base as int, dd),
                decreases n - i,
            {
                proof {
                    lemma_objs_step(os, dd, base as int, i as int);
                    lemma_objs_size_prefix(os, dd, i + 1);
                }
                let c = &cs[i];
                let sz = match tree_size(c, d - 1) {
                    Some(k) => k,
                    None => {
                        assert(false);
                        0
                    },
                };
                build_tree(c, at, d - 1, out);
                at = at + sz as u32;
                i = i + 1;
            }
            assert(os.subrange(0, n as int) =~= os);
        },
    }
}

/// Writes the object `t` into guest memory as one image and returns its
/// pointer. It fails only as placing an image of its size fails.
pub fn asc_new_tree<A: GuestAllocator>(heap: &mut AscHeap, alloc: &mut A, t: &Tree, d: usize) -> (r: Result<u32, AscError>)
    requires
        old(heap).wf(),
    ensures
        final(heap).wf(),
        match r {
            Ok(p) => holds_at(final(heap).memory@, p as int, obj_image(tree_obj(*t, d as nat), p as int, d as nat))
                && (obj_size(tree_obj(*t, d as nat), d as nat) > 0 ==> p != 0),
            Err(x) => x == AscError::Heap(HeapError::TooLarge) && obj_size(tree_obj(*t, d as nat), d as nat) > MAX_OBJECT_SIZE
                || x == AscError::Heap(HeapError::AllocationFailed) && obj_size(tree_obj(*t, d as nat), d as nat)
                > old(heap).arena_free_size,
        },
{
    let total = match tree_size(t, d) {
        Some(n) => n,
        None => {
            return Err(AscError::Heap(HeapError::TooLarge));
        },
    };
    let mut zeros: Vec<u8> = Vec::new();
    let mut z: usize = 0;
    while z < total
        invariant
            0 <= z <= total,
            zeros@.len() == z,
        decreases total - z,
    {
        zeros.push(0);
        z = z + 1;
    }
    let p = crate::asc::place(heap, alloc, &zeros)?;
    let mut image: Vec<u8> = Vec::new();
    build_tree(t, p, d, &mut image);
    proof {
        lemma_image_len(tree_obj(*t, d as nat), p as int, d as nat);
    }
    heap.write(p, &image);
    proof {
        assert(heap.memory@.subrange(p as int, p + image@.len()) =~= image@);
    }
    Ok(p)
}

} // verus!
