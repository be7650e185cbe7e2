use autotask::expand::expand;
use autotask::expand::function;
use autotask::expand::FnInput;
use autotask::expand::TaskError;
use autotask::expand::TaskFn;
use autotask::task;
use autotask::text::decimal_text;
use autotask::text::remove_spaces;
use autotask::text::separate;
use autotask::text::terminate;

fn pair() -> TaskFn {
    TaskFn {
        item: "pub fn pair_up(a: u8, b: u16) -> u32 { 1 }".to_string(),
        vis: "pub".to_string(),
        name: "pair_up".to_string(),
        inputs: vec![FnInput::Typed("u8".to_string()), FnInput::Typed("u16".to_string())],
        output: Some("u32".to_string()),
    }
}

const PAIR: &str = "struct PairUpHandle {
    __ptr: *mut PairUpWrapper,
    __collect: *mut (::core::sync::atomic::AtomicU8, *mut dyn ::autotask::Task),
}

union PairUpWrapper {
    args: (u8,u16,),
    complete: u32,
}

impl PairUpHandle {
    pub fn get(self) -> u32 {
        let value = ::core::mem::ManuallyDrop::new(self);

        let state_ptr = &unsafe { &*value.__collect }.0;
        if state_ptr.load(::core::sync::atomic::Ordering::Acquire) == 0 {
            ::autotask::Tasker::exhaust()
        }

        while state_ptr.load(::core::sync::atomic::Ordering::Acquire) == 1 {}

        let data_ptr = unsafe { value.__ptr.read() };
        let result = unsafe { data_ptr.complete };

        drop(unsafe { ::std::boxed::Box::from_raw(value.__collect) });
        drop(unsafe { ::std::boxed::Box::from_raw(value.__ptr) });

        result
    }
}

impl ::core::ops::Drop for PairUpHandle {
    fn drop(&mut self) {
        let __ptr = self.__ptr;
        self.__ptr = core::ptr::null_mut();

        let __collect = self.__collect;
        self.__collect = core::ptr::null_mut();

        let owned = PairUpHandle { __ptr, __collect };

        let _ = owned.get();
    }
}

impl ::autotask::Task for PairUpWrapper {
    fn run(&mut self) {
        pub fn pair_up(a: u8, b: u16) -> u32 { 1 }

        let __task = unsafe { self.args };

        let result = pair_up(__task.0, __task.1);

        *self = PairUpWrapper { complete: result };
    }
}

pub fn pair_up(_0: u8, _1: u16) -> PairUpHandle {
    let data = ::autotask::Tasker::add_task(PairUpWrapper {
        args: (_0,_1,)
    });

    PairUpHandle {
        __ptr: data.0,
        __collect: data.1,
    }
}
";

#[test]
fn a_function_becomes_this_code() {
    assert_eq!(function(&pair()).unwrap(), PAIR);
    assert_eq!(expand(&pair(), "Pair Up").unwrap(), PAIR);
}

#[test]
fn a_text_becomes_code_that_parses() {
    let code = task("fn dummy_task(goal: usize) -> usize { let mut curr = 0; loop { if curr == goal { break curr } curr += 1; } }").unwrap();
    let file = syn::parse_str::<syn::File>(&code).unwrap();
    assert_eq!(file.items.len(), 6);
    match &file.items[0] {
        syn::Item::Struct(item) => assert_eq!(item.ident.to_string(), "DummyTaskHandle"),
        _ => panic!(),
    }
    match &file.items[1] {
        syn::Item::Union(item) => assert_eq!(item.ident.to_string(), "DummyTaskWrapper"),
        _ => panic!(),
    }
    match &file.items[5] {
        syn::Item::Fn(item) => {
            assert_eq!(item.sig.ident.to_string(), "dummy_task");
            assert_eq!(item.sig.inputs.len(), 1);
        }
        _ => panic!(),
    }
    assert!(code.contains("let result = dummy_task(__task.0);"));
}

#[test]
fn a_function_without_arguments_and_result() {
    let code = task("pub(crate) fn nothing() {}").unwrap();
    assert!(code.contains("    args: (),\n    complete: (),\n"));
    assert!(code.contains("fn nothing() -> NothingHandle {"));
    assert!(code.contains("let result = nothing();"));
    assert!(syn::parse_str::<syn::File>(&code).is_ok());
    assert!(task("fn plain() {}").unwrap().contains("\n\n fn plain() -> PlainHandle {"));
}

#[test]
fn the_pattern_of_an_argument_is_not_used() {
    let code = task("fn f((a, b): (u8, u8), mut c: Vec<u8>) {}").unwrap();
    assert!(code.contains("fn f(_0: (u8 , u8), _1: Vec < u8 >) -> FHandle {"));
}

#[test]
fn names_are_put_in_capital_case() {
    let names = [
        ("camelCase", "CamelCase"),
        ("HTTPServer", "HttpServer"),
        ("__", ""),
        ("a1b2", "A1b2"),
        ("a\u{17f}b", "A\u{17f}b"),
    ];
    for (name, capital) in names {
        let f = TaskFn { name: name.to_string(), ..pair() };
        let code = function(&f).unwrap();
        let start = format!("struct {}Handle {{\n    __ptr: *mut {}Wrapper,", capital, capital);
        assert!(code.starts_with(&start), "{}", code);
    }
}

#[test]
fn a_text_that_is_no_function_is_refused() {
    assert_eq!(task("struct S;"), Err(TaskError::InvalidItem));
    assert_eq!(task("fn f("), Err(TaskError::InvalidItem));
    assert_eq!(task(""), Err(TaskError::InvalidItem));
    assert_eq!(task("fn f() {} fn g() {}"), Err(TaskError::InvalidItem));
    assert_eq!(TaskError::InvalidItem.message(), "invalid item");
}

#[test]
fn a_self_argument_is_refused() {
    assert_eq!(task("fn f(&self, a: u8) {}"), Err(TaskError::SelfArgument));
    assert_eq!(task("fn f(self) {}"), Err(TaskError::SelfArgument));
    let f = TaskFn { inputs: vec![FnInput::Receiver], ..pair() };
    assert_eq!(expand(&f, "Pair Up"), Err(TaskError::SelfArgument));
    assert_eq!(TaskError::SelfArgument.message(), "tasks can't have a self argument");
}

#[test]
fn a_name_that_gives_no_type_name_is_refused() {
    assert_eq!(task("fn _1() {}"), Err(TaskError::InvalidName));
    assert_eq!(expand(&pair(), "1 Up"), Err(TaskError::InvalidName));
    let f = TaskFn { name: "\u{17f}".to_string(), ..pair() };
    assert_eq!(function(&f), Err(TaskError::InvalidName));
    let f = TaskFn { name: "a_\u{17f}".to_string(), ..pair() };
    assert_eq!(function(&f), Err(TaskError::InvalidName));
}

#[test]
fn a_self_argument_is_refused_before_a_name() {
    assert_eq!(task("fn _1(self) {}"), Err(TaskError::SelfArgument));
}

#[test]
fn numbers_are_written_in_decimal() {
    assert_eq!(decimal_text(0), "0");
    assert_eq!(decimal_text(9), "9");
    assert_eq!(decimal_text(10), "10");
    assert_eq!(decimal_text(1234567890), "1234567890");
    assert_eq!(decimal_text(usize::MAX), format!("{}", usize::MAX));
}

#[test]
fn lists_are_written() {
    let items = vec!["a".to_string(), "b".to_string(), "c".to_string()];
    assert_eq!(separate(&items, ", "), "a, b, c");
    assert_eq!(terminate(&items, ","), "a,b,c,");
    assert_eq!(separate(&vec![], ", "), "");
    assert_eq!(terminate(&vec![], ","), "");
    assert_eq!(separate(&vec!["a".to_string()], ", "), "a");
}

#[test]
fn spaces_are_removed() {
    assert_eq!(remove_spaces(" a b  c "), "abc");
    assert_eq!(remove_spaces("\u{17f} k"), "\u{17f}k");
    assert_eq!(remove_spaces(""), "");
}
