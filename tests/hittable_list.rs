use ray_tracing::hittable_list::HittableList;

/// A stand-in primitive: a slab along the ray that is entered at `near` and
/// left at `far`; the test accepts the first crossing in `[t_min, bound]`.
#[derive(Clone, Copy, Debug, PartialEq)]
struct Slab {
    near: f64,
    far: f64,
    id: u32,
}

fn hit_slab(s: &Slab, t_min: f64, bound: f64) -> Option<(f64, u32)> {
    if s.near >= t_min && s.near <= bound {
        Some((s.near, s.id))
    } else if s.far >= t_min && s.far <= bound {
        Some((s.far, s.id))
    } else {
        None
    }
}

#[test]
fn new_list_is_empty() {
    let list: HittableList<u32, 4> = HittableList::new();
    assert_eq!(list.len(), 0);
}

#[test]
fn add_keeps_insertion_order() {
    let mut list: HittableList<u32, 3> = HittableList::new();
    list.add(10);
    list.add(20);
    list.add(30);
    assert_eq!(list.len(), 3);
    assert_eq!(*list.get(0), 10);
    assert_eq!(*list.get(1), 20);
    assert_eq!(*list.get(2), 30);
}

#[test]
fn clear_empties_and_allows_refill() {
    let mut list: HittableList<u32, 2> = HittableList::new();
    list.add(1);
    list.add(2);
    list.clear();
    assert_eq!(list.len(), 0);
    list.add(3);
    assert_eq!(list.len(), 1);
    assert_eq!(*list.get(0), 3);
}

#[test]
fn hit_on_empty_scene_is_none() {
    let list: HittableList<Slab, 2> = HittableList::new();
    let r = list.hit(f64::INFINITY, |s: &Slab, b: f64| hit_slab(s, 0.001, b));
    assert_eq!(r, None);
}

#[test]
fn hit_returns_nearest_whatever_the_order() {
    let front = Slab { near: 0.5, far: 1.5, id: 1 };
    let back = Slab { near: 1.0, far: 3.0, id: 2 };
    let mut a: HittableList<Slab, 2> = HittableList::new();
    a.add(front);
    a.add(back);
    let mut b: HittableList<Slab, 2> = HittableList::new();
    b.add(back);
    b.add(front);
    let ra = a.hit(f64::INFINITY, |s: &Slab, d: f64| hit_slab(s, 0.001, d));
    let rb = b.hit(f64::INFINITY, |s: &Slab, d: f64| hit_slab(s, 0.001, d));
    assert_eq!(ra, Some(1));
    assert_eq!(rb, Some(1));
}

#[test]
fn hit_tie_keeps_earlier_primitive() {
    let first = Slab { near: 2.0, far: 4.0, id: 1 };
    let second = Slab { near: 2.0, far: 4.0, id: 2 };
    let mut list: HittableList<Slab, 2> = HittableList::new();
    list.add(first);
    list.add(second);
    // With a strict bound the tied later primitive is rejected.
    let r = list.hit(f64::INFINITY, |s: &Slab, d: f64| {
        if s.near < d { Some((s.near, s.id)) } else { None }
    });
    assert_eq!(r, Some(1));
}

#[test]
fn hit_misses_beyond_t_max() {
    let mut list: HittableList<Slab, 1> = HittableList::new();
    list.add(Slab { near: 5.0, far: 6.0, id: 9 });
    let r = list.hit(4.0, |s: &Slab, d: f64| hit_slab(s, 0.001, d));
    assert_eq!(r, None);
}

#[test]
fn hit_passes_tightened_bound_on() {
    let mut list: HittableList<u32, 3> = HittableList::new();
    list.add(8);
    list.add(3);
    list.add(5);
    // Each primitive is a hit at its own value; it is accepted only under the bound.
    let r = list.hit(10u32, |t: &u32, bound: u32| if *t < bound { Some((*t, *t * 100)) } else { None });
    assert_eq!(r, Some(300));
}
