use crayon::ecs::{
    validate, ComponentArena, Entity, EntityView, Fetch, FetchMut, StorageKind, System,
    SystemData, SystemValidator, TypeKey, World,
};

#[derive(Debug, Clone, Copy, PartialEq)]
enum Value {
    Position(i32, i32),
    Velocity(i32, i32),
    Tag,
}

const POSITION: TypeKey = 1;
const VELOCITY: TypeKey = 2;
const TAG: TypeKey = 3;

const X: TypeKey = 100;
const Y: TypeKey = 200;
const Z: TypeKey = 300;

/// A system that reads the type `R`.
struct Reads<const R: u64>;

impl<const R: u64> System<Value> for Reads<R> {
    type ViewWith = Fetch;
    type Result = usize;

    const DATA: Fetch = Fetch { key: R };

    fn run(&self, view: EntityView, _: &mut World<Value>) -> usize {
        view.len()
    }
}

/// A system that writes the type `W`.
struct Writes<const W: u64>;

impl<const W: u64> System<Value> for Writes<W> {
    type ViewWith = FetchMut;
    type Result = usize;

    const DATA: FetchMut = FetchMut { key: W };

    fn run(&self, view: EntityView, _: &mut World<Value>) -> usize {
        view.len()
    }
}

/// A system that reads the type `R` and writes the type `W`.
struct ReadsWrites<const R: u64, const W: u64>;

impl<const R: u64, const W: u64> System<Value> for ReadsWrites<R, W> {
    type ViewWith = (Fetch, FetchMut);
    type Result = usize;

    const DATA: (Fetch, FetchMut) = (Fetch { key: R }, FetchMut { key: W });

    fn run(&self, view: EntityView, _: &mut World<Value>) -> usize {
        view.len()
    }
}

/// Moves every entity that has a position and a velocity, and counts its runs.
struct Mover {
    runs: usize,
}

impl System<Value> for Mover {
    type ViewWith = (Fetch, FetchMut);
    type Result = Vec<Entity>;

    const DATA: (Fetch, FetchMut) = (Fetch { key: VELOCITY }, FetchMut { key: POSITION });

    fn run(&self, mut view: EntityView, world: &mut World<Value>) -> Vec<Entity> {
        let mut moved = Vec::new();
        while let Some(e) = view.next() {
            let by = match world.arena(VELOCITY).get_unchecked(e.index()) {
                Value::Velocity(x, y) => (*x, *y),
                _ => (0, 0),
            };
            let slot = world.arena_mut(POSITION).get_unchecked_mut(e.index());
            if let Value::Position(x, y) = *slot {
                *slot = Value::Position(x + by.0, y + by.1);
            }
            moved.push(e);
        }
        moved
    }

    fn run_mut(&mut self, view: EntityView, world: &mut World<Value>) -> Vec<Entity> {
        self.runs += 1;
        self.run(view, world)
    }
}

/// Holds `validate` of three systems against the conjunction of the pairs,
/// in every order of the three.
fn three_agree_with_pairs(
    world: &World<Value>,
    a: &dyn SystemValidator<Value>,
    b: &dyn SystemValidator<Value>,
    c: &dyn SystemValidator<Value>,
) -> bool {
    let pairs = validate(world, &[a, b]) && validate(world, &[a, c]) && validate(world, &[b, c]);
    assert_eq!(validate(world, &[a, b, c]), pairs);
    assert_eq!(validate(world, &[a, c, b]), pairs);
    assert_eq!(validate(world, &[b, a, c]), pairs);
    assert_eq!(validate(world, &[b, c, a]), pairs);
    assert_eq!(validate(world, &[c, a, b]), pairs);
    assert_eq!(validate(world, &[c, b, a]), pairs);
    pairs
}

fn xyz_world() -> World<Value> {
    let mut world = World::new();
    world.register(X, StorageKind::Dense);
    world.register(Y, StorageKind::Sparse);
    world.register(Z, StorageKind::Dense);
    world
}

#[test]
fn validate_rejects_a_write_of_what_another_reads() {
    let world = xyz_world();
    let a = ReadsWrites::<X, Y>;
    let b = ReadsWrites::<Y, Z>;
    assert!(!validate(&world, &[&a, &b]));
    assert!(!validate(&world, &[&b, &a]));
}

#[test]
fn validate_accepts_readers_of_one_type() {
    let world = xyz_world();
    let a = Reads::<X>;
    let b = Reads::<X>;
    assert!(validate(&world, &[&a, &b]));
}

#[test]
fn validate_rejects_two_writers_of_one_type() {
    let world = xyz_world();
    let a = Writes::<X>;
    let b = Writes::<X>;
    assert!(!validate(&world, &[&a, &b]));
}

#[test]
fn validate_accepts_the_empty_batch() {
    let world = xyz_world();
    assert!(validate(&world, &[]));
}

#[test]
fn validate_rejects_a_system_that_writes_what_it_reads() {
    let world = xyz_world();
    let a = ReadsWrites::<X, X>;
    assert!(!validate(&world, &[&a]));
    let b = ReadsWrites::<X, Y>;
    assert!(validate(&world, &[&b]));
}

#[test]
fn validate_accepts_writers_of_different_types() {
    let world = xyz_world();
    let a = Writes::<X>;
    let b = Writes::<Y>;
    let c = Reads::<Z>;
    assert!(validate(&world, &[&a, &b, &c]));
}

#[test]
fn validate_of_three_is_the_conjunction_of_the_pairs() {
    let world = xyz_world();
    assert!(three_agree_with_pairs(&world, &Reads::<X>, &Reads::<X>, &Reads::<Y>));
    assert!(three_agree_with_pairs(&world, &Writes::<X>, &Writes::<Y>, &Writes::<Z>));
    assert!(three_agree_with_pairs(&world, &ReadsWrites::<X, Y>, &Reads::<X>, &Writes::<Z>));
    assert!(!three_agree_with_pairs(&world, &Writes::<X>, &Writes::<Y>, &Writes::<X>));
    assert!(!three_agree_with_pairs(
        &world,
        &ReadsWrites::<X, Y>,
        &ReadsWrites::<Y, Z>,
        &Reads::<X>
    ));
    assert!(!three_agree_with_pairs(&world, &Reads::<Z>, &Reads::<X>, &ReadsWrites::<Y, Z>));
    assert!(!three_agree_with_pairs(&world, &ReadsWrites::<X, X>, &Reads::<Y>, &Reads::<Z>));
    assert!(!three_agree_with_pairs(&world, &Writes::<Z>, &ReadsWrites::<Z, X>, &Reads::<Y>));
    assert!(!three_agree_with_pairs(&world, &Reads::<Y>, &Reads::<X>, &ReadsWrites::<Z, Z>));
}

#[test]
fn masks_of_a_bundle_do_not_depend_on_its_order() {
    let world = xyz_world();
    let (a, b, c) = (world.index(X), world.index(Y), world.index(Z));
    let first = (Fetch::new(X), FetchMut::new(Y), Fetch::new(Z));
    assert_eq!(first.readables(&world).iter(), vec![a, c]);
    assert_eq!(first.writables(&world).iter(), vec![b]);
    let second = (FetchMut::new(Y), Fetch::new(Z), Fetch::new(X));
    assert_eq!(second.readables(&world).iter(), vec![a, c]);
    assert_eq!(second.writables(&world).iter(), vec![b]);
    let third = (Fetch::new(Z), Fetch::new(X), FetchMut::new(Y));
    assert_eq!(third.readables(&world).iter(), vec![a, c]);
    assert_eq!(third.writables(&world).iter(), vec![b]);
}

#[test]
fn masks_of_the_plain_bundles() {
    let world = xyz_world();
    assert!(().readables(&world).is_empty());
    assert!(().writables(&world).is_empty());
    assert_eq!(Fetch::new(Y).readables(&world).iter(), vec![1]);
    assert!(Fetch::new(Y).writables(&world).is_empty());
    assert!(FetchMut::new(Z).readables(&world).is_empty());
    assert_eq!(FetchMut::new(Z).writables(&world).iter(), vec![2]);
    assert_eq!((Fetch::new(Z),).readables(&world).iter(), vec![2]);
}

#[test]
fn masks_of_nested_and_long_bundles() {
    let world = xyz_world();
    let nested = ((Fetch::new(X), FetchMut::new(Y)), (Fetch::new(Z), ()));
    assert_eq!(nested.readables(&world).iter(), vec![0, 2]);
    assert_eq!(nested.writables(&world).iter(), vec![1]);
    let long = (
        Fetch::new(X),
        Fetch::new(X),
        FetchMut::new(Z),
        (),
        Fetch::new(Y),
        FetchMut::new(Z),
        (),
        (),
        Fetch::new(X),
    );
    assert_eq!(long.readables(&world).iter(), vec![0, 1]);
    assert_eq!(long.writables(&world).iter(), vec![2]);
}

#[test]
fn mask_of_a_system_is_what_it_reads_and_writes() {
    let world = xyz_world();
    assert_eq!(ReadsWrites::<Z, X>::mask_at(&world).iter(), vec![0, 2]);
    assert_eq!(Reads::<Y>::mask_at(&world).iter(), vec![1]);
    assert_eq!(ReadsWrites::<Y, Y>::mask_at(&world).iter(), vec![1]);
    let s = ReadsWrites::<Z, X>;
    let v: &dyn SystemValidator<Value> = &s;
    assert_eq!(v.readables(&world).iter(), vec![2]);
    assert_eq!(v.writables(&world).iter(), vec![0]);
}

#[test]
fn fetch_hands_out_the_arena_of_its_type() {
    let mut world = xyz_world();
    let e = world.create().unwrap();
    world.insert(e, Y, Value::Tag);
    assert_eq!(Fetch::new(Y).fetch(&world).get(e.index()), Some(&Value::Tag));
    assert_eq!(Fetch::new(X).fetch(&world).get(e.index()), None);
    *FetchMut::new(Y).fetch(&mut world).get_unchecked_mut(e.index()) = Value::Position(1, 1);
    assert_eq!(world.get(e, Y), Some(&Value::Position(1, 1)));
}

#[test]
fn a_system_runs_over_the_entities_that_have_what_it_needs() {
    let mut world: World<Value> = World::new();
    world.register(POSITION, StorageKind::Dense);
    world.register(VELOCITY, StorageKind::Dense);
    world.register(TAG, StorageKind::Sparse);
    let a = world.create().unwrap();
    let b = world.create().unwrap();
    let c = world.create().unwrap();
    world.insert(a, POSITION, Value::Position(0, 0));
    world.insert(a, VELOCITY, Value::Velocity(1, 2));
    world.insert(b, POSITION, Value::Position(5, 5));
    world.insert(c, POSITION, Value::Position(7, 7));
    world.insert(c, VELOCITY, Value::Velocity(-1, 0));
    world.insert(c, TAG, Value::Tag);
    let mut mover = Mover { runs: 0 };
    assert_eq!(mover.run_at(&mut world), vec![a, c]);
    assert_eq!(world.get(a, POSITION), Some(&Value::Position(1, 2)));
    assert_eq!(world.get(b, POSITION), Some(&Value::Position(5, 5)));
    assert_eq!(world.get(c, POSITION), Some(&Value::Position(6, 7)));
    assert_eq!(world.get(c, VELOCITY), Some(&Value::Velocity(-1, 0)));
    assert_eq!(mover.run_mut_at(&mut world), vec![a, c]);
    assert_eq!(mover.runs, 1);
    assert_eq!(world.get(a, POSITION), Some(&Value::Position(2, 4)));
    mover.view_at(&world);
    mover.view_mut_at(&world);
    assert_eq!(Reads::<TAG>.run_at(&mut world), 1);
    assert_eq!(Writes::<POSITION>.run_at(&mut world), 3);
}

#[test]
fn end_to_end() {
    let mut world: World<Value> = World::new();
    world.register(POSITION, StorageKind::Dense);
    world.register(TAG, StorageKind::Sparse);
    let e = world.create().unwrap();
    assert_eq!(world.insert(e, POSITION, Value::Position(0, 0)), None);
    assert_eq!(world.get(e, POSITION), Some(&Value::Position(0, 0)));
    assert_eq!(world.get(e, TAG), None);
    let writes_position = Writes::<POSITION>;
    let reads_tag = Reads::<TAG>;
    assert!(validate(&world, &[&writes_position, &reads_tag]));
    let reads_position = Reads::<POSITION>;
    assert!(!validate(&world, &[&writes_position, &reads_tag, &reads_position]));
}

/// Remembers how many entities it was shown.
struct Watcher {
    seen: usize,
}

impl System<Value> for Watcher {
    type ViewWith = Fetch;
    type Result = usize;

    const DATA: Fetch = Fetch { key: POSITION };

    fn run(&self, view: EntityView, _: &mut World<Value>) -> usize {
        self.seen + view.len()
    }

    fn view_mut(&mut self, view: EntityView) {
        self.seen = view.len();
    }
}

#[test]
fn the_provided_methods_hand_the_view_of_the_mask_on() {
    let mut world: World<Value> = World::new();
    world.register(POSITION, StorageKind::Dense);
    world.register(TAG, StorageKind::Sparse);
    let a = world.create().unwrap();
    let b = world.create().unwrap();
    let c = world.create().unwrap();
    world.insert(a, POSITION, Value::Position(0, 0));
    world.insert(b, TAG, Value::Tag);
    world.insert(c, POSITION, Value::Position(1, 1));
    let mut watcher = Watcher { seen: 0 };
    assert_eq!(watcher.run_at(&mut world), 2);
    watcher.view_mut_at(&world);
    assert_eq!(watcher.seen, 2);
    assert_eq!(watcher.run_at(&mut world), 4);
    assert_eq!(watcher.run_mut_at(&mut world), 4);
    assert_eq!(watcher.seen, 2);
    let view = world.view(&Watcher::mask_at(&world));
    assert_eq!(watcher.run_mut(view, &mut world), 4);
    assert_eq!(watcher.seen, 2);
    world.free(a);
    watcher.view_mut_at(&world);
    assert_eq!(watcher.seen, 1);
    assert_eq!(world.get(c, POSITION), Some(&Value::Position(1, 1)));
}
