use std::cell::{Cell, RefCell};
use std::rc::Rc;

use alien_domain::error::{AlienError, AlienResult};
use alien_domain::frame::FrameAllocator;
use alien_domain::heap::{RRef, SharedHeap};
use alien_domain::id::{DomainIdAllocator, NO_DOMAIN_ID};
use alien_domain::proxy::{Basic, Domain, DomainLoader, InitResource, Proxy, ReplaceError};
use alien_domain::resource::{register_domain_resource, DomainResource, KernelMemory};

/// A domain that records its initialisations and panics when it is used
/// while crashed.
struct Stub {
    id: u64,
    alive: Cell<bool>,
    inits: Rc<RefCell<Vec<String>>>,
}

impl Stub {
    fn new(id: u64, inits: &Rc<RefCell<Vec<String>>>) -> Stub {
        Stub { id, alive: Cell::new(true), inits: inits.clone() }
    }

    fn crashed(id: u64) -> Stub {
        Stub { id, alive: Cell::new(false), inits: Rc::new(RefCell::new(Vec::new())) }
    }

    fn work(&self, x: u64) -> AlienResult<u64> {
        if !self.alive.get() {
            panic!("a crashed domain was called");
        }
        if x == 0 {
            return Err(AlienError::Other);
        }
        Ok(self.id * 100 + x)
    }
}

impl Basic for Stub {
    fn spec_domain_id(&self) -> u64 {
        self.id
    }

    fn spec_is_active(&self) -> bool {
        self.alive.get()
    }

    fn domain_id(&self) -> u64 {
        self.id
    }

    fn is_active(&self) -> bool {
        self.alive.get()
    }
}

impl Domain for Stub {
    fn init(&self, resource: &InitResource) -> AlienResult<()> {
        let text = match resource {
            InitResource::Nothing => String::from("nothing"),
            InitResource::Range { start, end } => format!("{:#x}-{:#x}", start, end),
            InitResource::Name(name) => name.clone(),
        };
        self.inits.borrow_mut().push(text);
        if self.id == 666 {
            return Err(AlienError::InvalidResource);
        }
        Ok(())
    }
}

/// A loader whose image builds `Stub`s, or fails to load.
struct StubLoader {
    works: bool,
    loads: usize,
    inits: Rc<RefCell<Vec<String>>>,
}

impl DomainLoader<Stub> for StubLoader {
    fn load(&mut self) -> AlienResult<()> {
        self.loads += 1;
        if self.works {
            Ok(())
        } else {
            Err(AlienError::LoadFailed)
        }
    }

    fn call(&mut self, domain_id: u64) -> Stub {
        Stub::new(domain_id, &self.inits)
    }
}

fn loader(works: bool, inits: &Rc<RefCell<Vec<String>>>) -> StubLoader {
    StubLoader { works, loads: 0, inits: inits.clone() }
}

fn memory() -> KernelMemory {
    KernelMemory {
        ledger: DomainResource::new(),
        frames: FrameAllocator::new(0, 64),
        heap: SharedHeap::new(8, 64),
        detached: Vec::new(),
    }
}

#[test]
fn crashed_domain_is_never_called() {
    let inits = Rc::new(RefCell::new(Vec::new()));
    let mut p = Proxy::build(Stub::crashed(5), loader(true, &inits));
    assert!(!p.is_active());
    assert_eq!(p.domain_id(), 5);
    assert_eq!(p.call(|d: &Stub| d.work(1)), Err(AlienError::DomainCrash));
    assert!(matches!(p.begin_call(), Err(AlienError::DomainCrash)));
}

#[test]
fn live_domain_results_pass_through_unchanged() {
    let inits = Rc::new(RefCell::new(Vec::new()));
    let mut p = Proxy::build(Stub::new(4, &inits), loader(true, &inits));
    assert!(p.is_active());
    assert_eq!(p.call(|d: &Stub| d.work(7)), Ok(407));
    assert_eq!(p.call(|d: &Stub| d.work(0)), Err(AlienError::Other));
}

#[test]
fn empty_proxy_until_replaced() {
    let inits = Rc::new(RefCell::new(Vec::new()));
    let mut mem = memory();
    let mut p: Proxy<Stub, StubLoader> = Proxy::build_empty(loader(true, &inits));
    assert!(!p.is_active());
    assert_eq!(p.domain_id(), NO_DOMAIN_ID);
    assert_eq!(p.call(|d: &Stub| d.work(1)), Err(AlienError::DomainCrash));
    assert_eq!(
        p.init_by_resource(InitResource::Range { start: 0x1000_1000, end: 0x1000_2000 }),
        Err(AlienError::DomainCrash)
    );
    assert!(matches!(p.replace(Stub::new(9, &inits), loader(true, &inits), &mut mem), Ok(true)));
    assert!(!p.is_swapping());
    assert!(p.is_active());
    assert_eq!(p.domain_id(), 9);
    assert_eq!(p.call(|d: &Stub| d.work(2)), Ok(902));
    assert_eq!(*inits.borrow(), vec![String::from("0x10001000-0x10002000")]);
}

#[test]
fn replace_reclaims_the_old_domain_exactly_once() {
    let inits = Rc::new(RefCell::new(Vec::new()));
    let mut mem = memory();
    let mut p = Proxy::build(Stub::new(1, &inits), loader(true, &inits));
    assert_eq!(p.init_by_resource(InitResource::Name(String::from("uart"))), Ok(()));
    assert_eq!(mem.frames.alloc_contiguous(10), Some(0));
    assert_eq!(mem.frames.alloc_contiguous(6), Some(10));
    mem.ledger.insert_page_map(1, (0, 10));
    mem.ledger.insert_page_map(1, (10, 6));
    mem.ledger.insert_page_map(2, (50, 1));
    register_domain_resource(&mut mem.ledger, 1, 0xbeef);
    let shared = RRef::new(&mut mem.heap, 1, 3, vec![1, 2]).unwrap();
    let before = mem.frames.free_page_count().unwrap();

    assert!(matches!(p.replace(Stub::new(2, &inits), loader(true, &inits), &mut mem), Ok(true)));
    assert!(mem.ledger.page_entry(1).is_none());
    assert_eq!(mem.ledger.heap_state_entry(1), None);
    assert_eq!(mem.ledger.page_entry(2), Some(&vec![(50, 1)]));
    assert_eq!(mem.frames.free_page_count(), Some(before + 16));
    assert_eq!(mem.detached, vec![0xbeef]);
    assert!(mem.heap.read(&shared).is_err());
    assert_eq!(mem.heap.free_capacity(), 8);
    assert_eq!(p.domain_id(), 2);
    assert_eq!(*inits.borrow(), vec![String::from("uart"), String::from("uart")]);

    assert!(matches!(p.replace(Stub::new(3, &inits), loader(true, &inits), &mut mem), Ok(true)));
    assert!(mem.ledger.page_entry(2).is_none());
    assert_eq!(mem.frames.free_page_count(), Some(before + 17));
    assert_eq!(mem.detached, vec![0xbeef]);
}

#[test]
fn replace_waits_for_calls_in_flight() {
    let inits = Rc::new(RefCell::new(Vec::new()));
    let mut mem = memory();
    let mut p = Proxy::build(Stub::new(1, &inits), loader(true, &inits));
    mem.ledger.insert_page_map(1, (0, 4));
    let t1 = p.begin_call().unwrap();
    let t2 = p.begin_call().unwrap();
    let t3 = p.begin_call().unwrap();

    assert!(matches!(p.replace(Stub::new(2, &inits), loader(true, &inits), &mut mem), Ok(false)));
    assert!(p.is_swapping());
    assert_eq!(p.domain_id(), 2);
    match p.replace(Stub::new(3, &inits), loader(true, &inits), &mut mem) {
        Err(ReplaceError::SwapInProgress(d, _)) => assert_eq!(d.id, 3),
        _ => panic!("a second swap was started"),
    }
    assert_eq!(p.call_in(&t1, |d: &Stub| d.work(5)), Ok(105));

    let late = p.begin_call().unwrap();
    assert_eq!(p.call_in(&late, |d: &Stub| d.work(5)), Ok(205));
    p.end_call(late);

    p.end_call(t1);
    assert_eq!(p.poll_replace(&mut mem), Ok(false));
    p.end_call(t3);
    assert_eq!(p.poll_replace(&mut mem), Ok(false));
    assert_eq!(mem.ledger.page_entry(1), Some(&vec![(0, 4)]));
    assert_eq!(p.call_in(&t2, |d: &Stub| d.work(6)), Ok(106));
    p.end_call(t2);
    assert_eq!(p.poll_replace(&mut mem), Ok(true));
    assert!(!p.is_swapping());
    assert!(mem.ledger.page_entry(1).is_none());
    assert_eq!(mem.frames.free_page_count(), Some(68));
    assert_eq!(p.poll_replace(&mut mem), Ok(true));
    assert_eq!(p.call(|d: &Stub| d.work(1)), Ok(201));
}

#[test]
fn failed_init_is_reported_after_the_swap() {
    let inits = Rc::new(RefCell::new(Vec::new()));
    let mut mem = memory();
    let mut p = Proxy::build(Stub::new(1, &inits), loader(true, &inits));
    assert!(matches!(
        p.replace(Stub::new(666, &inits), loader(true, &inits), &mut mem),
        Err(ReplaceError::Init(AlienError::InvalidResource))
    ));
    assert!(!p.is_swapping());
    assert_eq!(p.domain_id(), 666);
    assert_eq!(*inits.borrow(), vec![String::from("nothing")]);
}

#[test]
fn reload_builds_a_fresh_domain_under_a_new_id() {
    let inits = Rc::new(RefCell::new(Vec::new()));
    let mut mem = memory();
    let mut ids = DomainIdAllocator::new(40);
    let mut p = Proxy::build(Stub::new(1, &inits), loader(true, &inits));
    mem.ledger.insert_page_map(1, (0, 2));
    assert_eq!(p.reload(&mut ids, &mut mem), Ok(true));
    assert_eq!(p.domain_id(), 40);
    assert!(mem.ledger.page_entry(1).is_none());
    assert_eq!(p.reload(&mut ids, &mut mem), Ok(true));
    assert_eq!(p.domain_id(), 41);
    assert_eq!(ids.alloc_id(), Some(42));
}

#[test]
fn reload_keeps_the_domain_when_the_loader_fails() {
    let inits = Rc::new(RefCell::new(Vec::new()));
    let mut mem = memory();
    let mut ids = DomainIdAllocator::new(40);
    let mut p = Proxy::build(Stub::new(1, &inits), loader(false, &inits));
    mem.ledger.insert_page_map(1, (0, 2));
    assert_eq!(p.reload(&mut ids, &mut mem), Err(AlienError::LoadFailed));
    assert_eq!(p.domain_id(), 1);
    assert!(!p.is_swapping());
    assert_eq!(mem.ledger.page_entry(1), Some(&vec![(0, 2)]));
    assert_eq!(ids.alloc_id(), Some(40));
}

#[test]
fn reload_fails_when_identifiers_are_used_up() {
    let inits = Rc::new(RefCell::new(Vec::new()));
    let mut mem = memory();
    let mut ids = DomainIdAllocator::new(NO_DOMAIN_ID);
    let mut p = Proxy::build(Stub::new(1, &inits), loader(true, &inits));
    assert_eq!(p.reload(&mut ids, &mut mem), Err(AlienError::OutOfRange));
    assert_eq!(p.domain_id(), 1);
}

#[test]
fn reload_is_refused_during_a_swap() {
    let inits = Rc::new(RefCell::new(Vec::new()));
    let mut mem = memory();
    let mut ids = DomainIdAllocator::new(40);
    let mut p = Proxy::build(Stub::new(1, &inits), loader(true, &inits));
    let t = p.begin_call().unwrap();
    assert!(matches!(p.replace(Stub::new(2, &inits), loader(true, &inits), &mut mem), Ok(false)));
    assert_eq!(p.reload(&mut ids, &mut mem), Err(AlienError::SwapInProgress));
    p.end_call(t);
    assert_eq!(p.poll_replace(&mut mem), Ok(true));
    assert_eq!(p.reload(&mut ids, &mut mem), Ok(true));
    assert_eq!(p.domain_id(), 40);
}

#[test]
fn reload_loaded_passes_a_failed_load_through() {
    let inits = Rc::new(RefCell::new(Vec::new()));
    let mut mem = memory();
    let mut ids = DomainIdAllocator::new(40);
    let mut p = Proxy::build(Stub::new(1, &inits), loader(true, &inits));
    assert_eq!(p.reload_loaded(Err(AlienError::Other), &mut ids, &mut mem), Err(AlienError::Other));
    assert_eq!(p.domain_id(), 1);
    assert_eq!(p.reload_loaded(Ok(()), &mut ids, &mut mem), Ok(true));
    assert_eq!(p.domain_id(), 40);
    let mut spent = DomainIdAllocator::new(NO_DOMAIN_ID);
    assert_eq!(p.reload_loaded(Ok(()), &mut spent, &mut mem), Err(AlienError::OutOfRange));
    assert_eq!(p.domain_id(), 40);
}

#[test]
fn reload_leaves_calls_in_flight_on_the_old_domain() {
    let inits = Rc::new(RefCell::new(Vec::new()));
    let mut mem = memory();
    let mut ids = DomainIdAllocator::new(7);
    let mut p = Proxy::build(Stub::new(1, &inits), loader(true, &inits));
    let t = p.begin_call().unwrap();
    assert_eq!(p.reload(&mut ids, &mut mem), Ok(false));
    assert_eq!(p.call_in(&t, |d: &Stub| d.work(3)), Ok(103));
    assert_eq!(p.call(|d: &Stub| d.work(3)), Ok(703));
    p.end_call(t);
    assert_eq!(p.poll_replace(&mut mem), Ok(true));
}
