use vstd::prelude::*;
use vstd::arithmetic::div_mod::lemma_fundamental_div_mod_converse;
use crate::array::{
    all_in_bounds, flat_index, gather, in_bounds, offset, points_view, shape_size, DenseArray,
};
use crate::scalar::DynScalar;

verus! {

/// Which coordinates of one axis a selection keeps.
#[derive(Debug)]
pub enum SelectInfoElem {
    /// The entire axis, in order.
    Full,
    /// The listed coordinates, in the order given; they may repeat or reorder.
    Index(Vec<usize>),
}

impl SelectInfoElem {
    /// `None` for the entire axis, else the listed coordinates.
    pub open spec fn view(&self) -> Option<Seq<usize>> {
        match self {
            SelectInfoElem::Full => None,
            SelectInfoElem::Index(v) => Some(v@),
        }
    }

    /// The selector of an entire axis.
    pub fn full() -> (r: SelectInfoElem)
        ensures
            r.view() is None,
    {
        SelectInfoElem::Full
    }

    /// A copy of the selector.
    pub fn duplicate(&self) -> (r: SelectInfoElem)
        ensures
            r.view() == self.view(),
    {
        match self {
            SelectInfoElem::Full => SelectInfoElem::Full,
            SelectInfoElem::Index(v) => SelectInfoElem::Index(copy_indices(v)),
        }
    }

    /// A full-rank selection of `ndim` axes: `self` at `axis`, `fill` everywhere else.
    pub fn set_axis(&self, axis: usize, ndim: usize, fill: &SelectInfoElem) -> (r: Vec<SelectInfoElem>)
        requires
            axis < ndim,
        ensures
            info_view(r@) == axis_info(self.view(), fill.view(), axis as int, ndim as int),
    {
        let mut r: Vec<SelectInfoElem> = Vec::new();
        let mut k: usize = 0;
        while k < ndim
            invariant
                axis < ndim,
                k <= ndim,
                r@.len() == k,
                forall|j: int| 0 <= j < k ==> (#[trigger] r@[j]).view() == (if j == axis {
                    self.view()
                } else {
                    fill.view()
                }),
            decreases ndim - k,
        {
            if k == axis {
                r.push(self.duplicate());
            } else {
                r.push(fill.duplicate());
            }
            k = k + 1;
        }
        assert(info_view(r@) =~= axis_info(self.view(), fill.view(), axis as int, ndim as int));
        r
    }
}

/// A copy of a list of coordinates.
fn copy_indices(v: &Vec<usize>) -> (r: Vec<usize>)
    ensures
        r@ == v@,
{
    let mut r: Vec<usize> = Vec::new();
    let mut k: usize = 0;
    while k < v.len()
        invariant
            k <= v@.len(),
            r@ == v@.subrange(0, k as int),
        decreases v@.len() - k,
    {
        r.push(v[k]);
        k = k + 1;
        assert(r@ =~= v@.subrange(0, k as int));
    }
    assert(v@.subrange(0, k as int) =~= v@);
    r
}

/// The per-axis selectors of a full-rank selection.
pub open spec fn info_view(info: Seq<SelectInfoElem>) -> Seq<Option<Seq<usize>>> {
    Seq::new(info.len(), |k: int| info[k].view())
}

/// `sel` at `axis` and `fill` at every other of `ndim` axes.
pub open spec fn axis_info(sel: Option<Seq<usize>>, fill: Option<Seq<usize>>, axis: int, ndim: int) -> Seq<Option<Seq<usize>>> {
    Seq::new(ndim as nat, |k: int| if k == axis { sel } else { fill })
}

/// The coordinates one axis of extent `extent` contributes.
pub open spec fn axis_choice(extent: usize, e: Option<Seq<usize>>) -> Seq<usize> {
    match e {
        None => Seq::new(extent as nat, |i: int| i as usize),
        Some(l) => l,
    }
}

/// The coordinates each axis contributes.
pub open spec fn choices(shape: Seq<usize>, info: Seq<Option<Seq<usize>>>) -> Seq<Seq<usize>> {
    Seq::new(shape.len(), |k: int| axis_choice(shape[k], info[k]))
}

/// One selector per axis, each listed coordinate below its axis' extent.
pub open spec fn valid_selection(shape: Seq<usize>, info: Seq<Option<Seq<usize>>>) -> bool {
    &&& info.len() == shape.len()
    &&& forall|k: int| 0 <= k < shape.len() ==> (#[trigger] axis_choice(shape[k], info[k])).len() <= usize::MAX
    &&& forall|k: int, j: int|
        0 <= k < shape.len() && 0 <= j < axis_choice(shape[k], info[k]).len()
            ==> #[trigger] axis_choice(shape[k], info[k])[j] < shape[k]
}

/// All combinations of one coordinate per axis, in row-major order.
pub open spec fn cart(ch: Seq<Seq<usize>>) -> Seq<Seq<usize>>
    decreases ch.len(),
{
    if ch.len() == 0 {
        seq![Seq::empty()]
    } else {
        let prev = cart(ch.drop_last());
        let l = ch.last();
        Seq::new(prev.len() * l.len(), |o: int| prev[o / (l.len() as int)].push(l[o % (l.len() as int)]))
    }
}

/// The extent of each axis of a selection result.
pub open spec fn lens(ch: Seq<Seq<usize>>) -> Seq<usize> {
    Seq::new(ch.len(), |k: int| ch[k].len() as usize)
}

/// Index `o` of a product of `p` blocks of `l` lies in block `o / l`, at `o % l`.
proof fn lemma_block(o: int, p: int, l: int)
    requires
        0 <= o < p * l,
        l > 0,
    ensures
        0 <= o / l < p,
        0 <= o % l < l,
        (o / l) * l + o % l == o,
{
    vstd::arithmetic::div_mod::lemma_fundamental_div_mod(o, l);
    assert(0 <= o % l < l) by {
        vstd::arithmetic::div_mod::lemma_mod_bound(o, l);
    }
    assert((o / l) * l + o % l == o) by (nonlinear_arith)
        requires
            o == l * (o / l) + (o % l),
    ;
    assert(0 <= o / l < p) by (nonlinear_arith)
        requires
            0 <= o < p * l,
            l > 0,
            (o / l) * l + o % l == o,
            0 <= o % l < l,
    ;
}

/// Every combination has one coordinate per axis, drawn from that axis' list, and
/// there are as many as the product of the list lengths.
pub proof fn lemma_cart(ch: Seq<Seq<usize>>)
    requires
        forall|k: int| 0 <= k < ch.len() ==> (#[trigger] ch[k]).len() <= usize::MAX,
    ensures
        cart(ch).len() == shape_size(lens(ch)),
        forall|o: int| 0 <= o < cart(ch).len() ==> (#[trigger] cart(ch)[o]).len() == ch.len(),
        forall|o: int, k: int| 0 <= o < cart(ch).len() && 0 <= k < ch.len()
            ==> ch[k].contains(#[trigger] cart(ch)[o][k]),
    decreases ch.len(),
{
    if ch.len() == 0 {
        assert(lens(ch) =~= Seq::<usize>::empty());
        assert(cart(ch).len() == 1);
    } else {
        let d = ch.drop_last();
        lemma_cart(d);
        assert(lens(ch).drop_last() =~= lens(d));
        let prev = cart(d);
        let l = ch.last();
        let c = cart(ch);
        assert(l.len() <= usize::MAX);
        assert(lens(ch).last() == l.len());
        assert(c.len() == prev.len() * l.len());
        assert forall|o: int| 0 <= o < c.len() implies (#[trigger] c[o]).len() == ch.len() by {
            assert(l.len() > 0) by (nonlinear_arith)
                requires
                    0 <= o < prev.len() * l.len(),
            ;
            lemma_block(o, prev.len() as int, l.len() as int);
            let i = o / (l.len() as int);
            assert(prev[i].len() == d.len());
        }
        assert forall|o: int, k: int| 0 <= o < c.len() && 0 <= k < ch.len()
            implies ch[k].contains(#[trigger] c[o][k]) by {
            assert(l.len() > 0) by (nonlinear_arith)
                requires
                    0 <= o < prev.len() * l.len(),
            ;
            lemma_block(o, prev.len() as int, l.len() as int);
            let i = o / (l.len() as int);
            let j = o % (l.len() as int);
            assert(c[o] == prev[i].push(l[j]));
            assert(prev[i].len() == d.len());
            if k < ch.len() - 1 {
                assert(d[k] == ch[k]);
                assert(c[o][k] == prev[i][k]);
                assert(d[k].contains(prev[i][k]));
            } else {
                assert(ch[k][j] == c[o][k]);
            }
        }
    }
}

/// The source multi-index that output multi-index `m` of a selection stands for:
/// on each axis, the `m[k]`-th chosen coordinate.
pub open spec fn pick(ch: Seq<Seq<usize>>, m: Seq<usize>) -> Seq<usize> {
    Seq::new(ch.len(), |k: int| ch[k][m[k] as int])
}

/// The combination at the row-major position of `m` is the one `m` picks.
pub proof fn lemma_cart_at(ch: Seq<Seq<usize>>, m: Seq<usize>)
    requires
        forall|k: int| 0 <= k < ch.len() ==> (#[trigger] ch[k]).len() <= usize::MAX,
        in_bounds(lens(ch), m),
    ensures
        0 <= flat_index(lens(ch), m) < cart(ch).len(),
        cart(ch)[flat_index(lens(ch), m)] == pick(ch, m),
    decreases ch.len(),
{
    lemma_cart(ch);
    crate::array::lemma_flat_index_bounds(lens(ch), m);
    if ch.len() == 0 {
        assert(pick(ch, m) =~= Seq::<usize>::empty());
    } else {
        let d = ch.drop_last();
        let md = m.drop_last();
        assert(lens(ch).drop_last() =~= lens(d));
        assert(in_bounds(lens(d), md));
        lemma_cart_at(d, md);
        let l = ch.last();
        let ln = l.len() as int;
        let f = flat_index(lens(d), md);
        let x = m.last() as int;
        assert(lens(ch).last() == l.len());
        assert(flat_index(lens(ch), m) == f * ln + x);
        assert(0 <= x < ln);
        lemma_fundamental_div_mod_converse(f * ln + x, ln, f, x);
        assert(cart(ch)[f * ln + x] == cart(d)[f].push(l[x]));
        assert(pick(ch, m) =~= pick(d, md).push(l[x]));
    }
}

/// A valid selection only names in-bounds multi-indices.
pub proof fn lemma_cart_in_bounds(shape: Seq<usize>, info: Seq<Option<Seq<usize>>>)
    requires
        valid_selection(shape, info),
    ensures
        all_in_bounds(shape, cart(choices(shape, info))),
{
    let ch = choices(shape, info);
    assert forall|k: int| 0 <= k < ch.len() implies (#[trigger] ch[k]).len() <= usize::MAX by {
        assert(ch[k] == axis_choice(shape[k], info[k]));
    }
    lemma_cart(ch);
    let c = cart(ch);
    assert forall|o: int| 0 <= o < c.len() implies in_bounds(shape, #[trigger] c[o]) by {
        assert(c[o].len() == shape.len());
        assert forall|k: int| 0 <= k < c[o].len() implies c[o][k] < shape[k] by {
            assert(ch[k].contains(c[o][k]));
            let j = choose|j: int| 0 <= j < ch[k].len() && ch[k][j] == c[o][k];
            assert(axis_choice(shape[k], info[k])[j] < shape[k]);
        }
    }
}

/// Selecting every axis in full names each position of the array once, in order.
proof fn lemma_full_positions(shape: Seq<usize>, info: Seq<Option<Seq<usize>>>)
    requires
        info.len() == shape.len(),
        forall|k: int| 0 <= k < info.len() ==> info[k] is None,
    ensures
        cart(choices(shape, info)).len() == shape_size(shape),
        forall|o: int| 0 <= o < shape_size(shape) ==> flat_index(shape, #[trigger] cart(choices(shape, info))[o]) == o,
    decreases shape.len(),
{
    let ch = choices(shape, info);
    assert forall|k: int| 0 <= k < ch.len() implies (#[trigger] ch[k]).len() <= usize::MAX by {
        assert(ch[k].len() == shape[k]);
    }
    lemma_cart(ch);
    assert(lens(ch) =~= shape);
    if shape.len() > 0 {
        let s = shape.drop_last();
        let i2 = info.drop_last();
        lemma_full_positions(s, i2);
        assert(ch.drop_last() =~= choices(s, i2));
        let prev = cart(choices(s, i2));
        let l = ch.last();
        let n = shape.last() as int;
        assert forall|o: int| 0 <= o < shape_size(shape) implies flat_index(shape, #[trigger] cart(ch)[o]) == o by {
            assert(shape_size(shape) == shape_size(s) * (n as nat));
            assert(n > 0) by (nonlinear_arith)
                requires
                    0 <= o < prev.len() * n,
            ;
            lemma_block(o, prev.len() as int, n);
            let i = o / n;
            let j = o % n;
            let p = cart(ch)[o];
            assert(p == prev[i].push(l[j]));
            assert(l[j] == j as usize);
            lemma_cart(choices(s, i2));
            assert(p.drop_last() =~= prev[i]);
            assert(flat_index(s, prev[i]) == i);
        }
    }
}

/// A selection that takes every axis in full gives back the array's own elements.
pub proof fn lemma_full_selection_identity(shape: Seq<usize>, data: Seq<DynScalar>, info: Seq<Option<Seq<usize>>>)
    requires
        data.len() == shape_size(shape),
        info.len() == shape.len(),
        forall|k: int| 0 <= k < info.len() ==> info[k] is None,
    ensures
        valid_selection(shape, info),
        lens(choices(shape, info)) == shape,
        gather(shape, data, cart(choices(shape, info))) == data,
{
    lemma_full_positions(shape, info);
    assert(lens(choices(shape, info)) =~= shape);
    assert(gather(shape, data, cart(choices(shape, info))) =~= data);
}

/// The coordinates that selector `e` keeps on an axis of extent `extent`, or `None`
/// when one is out of range.
fn choice_of(extent: usize, e: &SelectInfoElem) -> (r: Option<Vec<usize>>)
    ensures
        r matches Some(v) ==> v@ == axis_choice(extent, e.view()),
        r is Some <==> forall|j: int| 0 <= j < axis_choice(extent, e.view()).len()
            ==> #[trigger] axis_choice(extent, e.view())[j] < extent,
{
    match e {
        SelectInfoElem::Full => {
            let mut v: Vec<usize> = Vec::new();
            let mut i: usize = 0;
            while i < extent
                invariant
                    i <= extent,
                    v@ =~= Seq::new(i as nat, |x: int| x as usize),
                decreases extent - i,
            {
                v.push(i);
                i = i + 1;
            }
            Some(v)
        },
        SelectInfoElem::Index(l) => {
            let mut k: usize = 0;
            while k < l.len()
                invariant
                    e.view() == Some(l@),
                    k <= l@.len(),
                    forall|j: int| 0 <= j < k ==> l@[j] < extent,
                decreases l@.len() - k,
            {
                if l[k] >= extent {
                    assert(axis_choice(extent, e.view())[k as int] >= extent);
                    return None;
                }
                k = k + 1;
            }
            Some(copy_indices(l))
        },
    }
}

/// The coordinates each axis keeps under `info`, or `None` when the selection is
/// not valid for `shape`.
pub(crate) fn choices_of(shape: &Vec<usize>, info: &Vec<SelectInfoElem>) -> (r: Option<Vec<Vec<usize>>>)
    ensures
        r is Some <==> valid_selection(shape@, info_view(info@)),
        r matches Some(v) ==> points_view(v@) == choices(shape@, info_view(info@)),
{
    if shape.len() != info.len() {
        return None;
    }
    let ghost iv = info_view(info@);
    let mut r: Vec<Vec<usize>> = Vec::new();
    let mut k: usize = 0;
    while k < shape.len()
        invariant
            shape@.len() == info@.len(),
            iv == info_view(info@),
            k <= shape@.len(),
            r@.len() == k,
            forall|i: int| 0 <= i < k ==> (#[trigger] r@[i])@ == axis_choice(shape@[i], iv[i]),
            forall|i: int| 0 <= i < k ==> (#[trigger] axis_choice(shape@[i], iv[i])).len() <= usize::MAX,
            forall|i: int, j: int| 0 <= i < k && 0 <= j < axis_choice(shape@[i], iv[i]).len()
                ==> #[trigger] axis_choice(shape@[i], iv[i])[j] < shape@[i],
        decreases shape@.len() - k,
    {
        assert(iv[k as int] == info@[k as int].view());
        match choice_of(shape[k], &info[k]) {
            None => {
                assert(!valid_selection(shape@, iv));
                return None;
            },
            Some(v) => {
                assert(v@.len() == v.len());
                r.push(v);
            },
        }
        k = k + 1;
    }
    assert(points_view(r@) =~= choices(shape@, iv));
    Some(r)
}

/// All combinations of one coordinate from each list, in row-major order.
pub fn cartesian(ch: &Vec<Vec<usize>>) -> (r: Vec<Vec<usize>>)
    ensures
        points_view(r@) == cart(points_view(ch@)),
{
    let ghost cv = points_view(ch@);
    let mut cur: Vec<Vec<usize>> = vec![Vec::new()];
    assert(cv.subrange(0, 0) =~= Seq::<Seq<usize>>::empty());
    assert(points_view(cur@) =~= cart(cv.subrange(0, 0)));
    let mut k: usize = 0;
    while k < ch.len()
        invariant
            cv == points_view(ch@),
            k <= ch@.len(),
            points_view(cur@) == cart(cv.subrange(0, k as int)),
        decreases ch@.len() - k,
    {
        let l = &ch[k];
        let ghost prev = points_view(cur@);
        let ghost ln = l@.len() as int;
        let mut next: Vec<Vec<usize>> = Vec::new();
        let mut i: usize = 0;
        while i < cur.len()
            invariant
                prev == points_view(cur@),
                ln == l@.len(),
                i <= cur@.len(),
                next@.len() == i * ln,
                forall|o: int| 0 <= o < i * ln ==> (#[trigger] next@[o])@ == prev[o / ln].push(l@[o % ln]),
            decreases cur@.len() - i,
        {
            let mut j: usize = 0;
            while j < l.len()
                invariant
                    prev == points_view(cur@),
                    ln == l@.len(),
                    i < cur@.len(),
                    j <= ln,
                    next@.len() == i * ln + j,
                    forall|o: int| 0 <= o < i * ln + j ==> (#[trigger] next@[o])@ == prev[o / ln].push(l@[o % ln]),
                decreases ln - j,
            {
                let mut p = copy_indices(&cur[i]);
                p.push(l[j]);
                proof {
                    lemma_fundamental_div_mod_converse(i * ln + j, ln, i as int, j as int);
                }
                next.push(p);
                j = j + 1;
            }
            proof {
                assert((i + 1) * ln == i * ln + ln) by (nonlinear_arith);
            }
            i = i + 1;
        }
        proof {
            let s = cv.subrange(0, k as int + 1);
            assert(s.drop_last() =~= cv.subrange(0, k as int));
            assert(s.last() == l@);
            assert(points_view(next@) =~= cart(s));
        }
        cur = next;
        k = k + 1;
    }
    assert(cv.subrange(0, k as int) =~= cv);
    cur
}

/// The elements of `a` at the given in-bounds multi-indices, in their order.
pub(crate) fn gather_points(a: &DenseArray, pts: &Vec<Vec<usize>>) -> (r: Vec<DynScalar>)
    requires
        a.wf(),
        all_in_bounds(a.shape@, points_view(pts@)),
    ensures
        r@ == gather(a.shape@, a.data@, points_view(pts@)),
{
    assert(a.data@.len() == a.data.len());
    let mut out: Vec<DynScalar> = Vec::new();
    let mut k: usize = 0;
    while k < pts.len()
        invariant
            a.wf(),
            shape_size(a.shape@) <= usize::MAX,
            all_in_bounds(a.shape@, points_view(pts@)),
            k <= pts@.len(),
            out@.len() == k,
            forall|j: int| 0 <= j < k ==> #[trigger] out@[j] == gather(a.shape@, a.data@, points_view(pts@))[j],
        decreases pts@.len() - k,
    {
        assert(points_view(pts@)[k as int] == pts@[k as int]@);
        let o = offset(&a.shape, &pts[k]).unwrap();
        out.push(a.data[o].duplicate());
        k = k + 1;
    }
    assert(out@ =~= gather(a.shape@, a.data@, points_view(pts@)));
    out
}

} // verus!
