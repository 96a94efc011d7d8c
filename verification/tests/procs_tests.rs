use cute::errors::{CuteError, CuteErrorCode};
use cute::procs::{ProcManager, TaskConstructor};
use cute::tasks::{BasicTaskConstructor, Task};

struct Doubler;

impl TaskConstructor for Doubler {
    type Task = Vec<u8>;

    fn create(&self, input: Option<Box<[u8]>>) -> Result<Vec<u8>, CuteError> {
        match input {
            Some(bytes) => Ok(bytes.iter().map(|b| b.wrapping_mul(2)).collect()),
            None => Err(CuteError::internal("no input")),
        }
    }
}

struct Tagged(u8);

impl TaskConstructor for Tagged {
    type Task = u8;

    fn create(&self, _input: Option<Box<[u8]>>) -> Result<u8, CuteError> {
        Ok(self.0)
    }
}

#[test]
fn a_constructor_of_the_test_builds() {
    let made = Doubler.create(Some(vec![1u8, 2, 3].into_boxed_slice()));
    assert_eq!(made.unwrap(), vec![2u8, 4, 6]);
}

#[test]
fn a_registered_key_builds_its_task() {
    let mut procs = ProcManager::new();
    procs.insert(0, Doubler);
    let made = procs.get_task(0, Some(vec![4u8, 5].into_boxed_slice()));
    assert_eq!(made.unwrap(), vec![8u8, 10]);
    let failed = procs.get_task(0, None);
    let e = failed.unwrap_err();
    assert_eq!(e.code, CuteErrorCode::Internal);
    assert_eq!(e.message, "no input");
}

#[test]
fn an_unregistered_key_is_not_found() {
    let mut procs = ProcManager::new();
    procs.insert(0, Doubler);
    for key in [1u32, 7, 10, 42, 4096, 1_000_000, u32::MAX] {
        let e = procs.get_task(key, Some(vec![1u8].into_boxed_slice())).unwrap_err();
        assert_eq!(e.code, CuteErrorCode::NotFound);
        assert_eq!(e.message, format!("Task \"{}\" not found", key));
    }
    // the key that is registered answers as before
    assert_eq!(procs.get_task(0, Some(vec![1u8].into_boxed_slice())).unwrap(), vec![2u8]);
}

#[test]
fn an_empty_registry_finds_nothing() {
    let procs: ProcManager<Doubler> = ProcManager::new();
    let e = procs.get_task(0, None).unwrap_err();
    assert_eq!(e.code, CuteErrorCode::NotFound);
    assert_eq!(e.message, "Task \"0\" not found");
    assert_eq!(procs.get_service_protocols().unwrap(), Vec::<u32>::new());
}

#[test]
fn the_first_constructor_under_a_key_stays() {
    let mut procs = ProcManager::new();
    procs.insert(3, Tagged(1));
    procs.insert(3, Tagged(2));
    procs.insert(4, Tagged(9));
    assert_eq!(procs.get_task(3, None).unwrap(), 1);
    assert_eq!(procs.get_task(4, None).unwrap(), 9);
}

#[test]
fn the_registered_keys_are_listed_once_each() {
    let mut procs = ProcManager::new();
    for key in [5u32, 1, 9, 5, 1, 0] {
        procs.insert(key, Tagged(key as u8));
    }
    let mut keys = procs.get_service_protocols().unwrap();
    keys.sort();
    assert_eq!(keys, vec![0, 1, 5, 9]);
}

struct Greeter {
    name: Vec<u8>,
}

impl Task for Greeter {
    fn new(input: Option<Box<[u8]>>) -> Result<Self, CuteError> {
        match input {
            Some(bytes) => Ok(Greeter { name: bytes.into_vec() }),
            None => Err(CuteError::deserialize_invalid("a name is needed")),
        }
    }
}

#[test]
fn the_basic_constructor_builds_by_new() {
    let constructor: BasicTaskConstructor<Greeter, ()> = BasicTaskConstructor::new();
    let task = constructor.create(Some(b"ada".to_vec().into_boxed_slice())).unwrap();
    assert_eq!(task.name, b"ada".to_vec());
    let e = constructor.create(None).err().unwrap();
    assert_eq!(e.code, CuteErrorCode::DeSerializeInvalid);
    assert_eq!(e.message, "a name is needed");
    let mut procs = ProcManager::new();
    procs.insert(1, constructor);
    assert_eq!(procs.get_task(1, Some(vec![b'x'].into_boxed_slice())).unwrap().name, vec![b'x']);
}
