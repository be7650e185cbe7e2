//! The text of the generated code, item by item and in the order in which it is written.
//! Between two pieces stands a name, a type, a list of arguments or the function itself.
use vstd::prelude::*;

verus! {

/// The handle follows.
pub const HANDLE_STRUCT: &'static str = "struct ";

/// The wrapper follows.
pub const HANDLE_FIELDS: &'static str = " {
    __ptr: *mut ";

/// The end of the handle's declaration.
pub const HANDLE_END: &'static str = ",
    __collect: *mut (::core::sync::atomic::AtomicU8, *mut dyn ::autotask::Task),
}

";

/// The wrapper follows.
pub const WRAPPER_UNION: &'static str = "union ";

/// The types of the arguments follow.
pub const WRAPPER_ARGS: &'static str = " {
    args: (";

/// The type of the result follows.
pub const WRAPPER_COMPLETE: &'static str = "),
    complete: ";

/// The end of the wrapper's declaration.
pub const WRAPPER_END: &'static str = ",
}

";

/// The handle follows.
pub const HANDLE_IMPL: &'static str = "impl ";

/// The type of the result follows.
pub const HANDLE_GET: &'static str = " {
    pub fn get(self) -> ";

/// The end of the handle's methods.
pub const HANDLE_GET_BODY: &'static str = " {
        let value = ::core::mem::ManuallyDrop::new(self);

        let state_ptr = &unsafe { &*value.__collect }.0;
        if state_ptr.load(::core::sync::atomic::Ordering::Acquire) == 0 {
            ::autotask::Tasker::exhaust()
        }

        while state_ptr.load(::core::sync::atomic::Ordering::Acquire) == 1 {}

        let data_ptr = unsafe { value.__ptr.read() };
        let result = unsafe { data_ptr.complete };

        drop(unsafe { ::std::boxed::Box::from_raw(value.__collect) });
        drop(unsafe { ::std::boxed::Box::from_raw(value.__ptr) });

        result
    }
}

";

/// The handle follows.
pub const HANDLE_DROP: &'static str = "impl ::core::ops::Drop for ";

/// The handle follows.
pub const HANDLE_DROP_BODY: &'static str = " {
    fn drop(&mut self) {
        let __ptr = self.__ptr;
        self.__ptr = core::ptr::null_mut();

        let __collect = self.__collect;
        self.__collect = core::ptr::null_mut();

        let owned = ";

/// The end of what dropping a handle does.
pub const HANDLE_DROP_END: &'static str = " { __ptr, __collect };

        let _ = owned.get();
    }
}

";

/// The wrapper follows.
pub const TASK_IMPL: &'static str = "impl ::autotask::Task for ";

/// The function follows.
pub const TASK_RUN: &'static str = " {
    fn run(&mut self) {
        ";

/// The name of the function follows.
pub const TASK_RUN_ARGS: &'static str = "

        let __task = unsafe { self.args };

        let result = ";

/// The arguments follow.
pub const PAREN: &'static str = "(";

/// The wrapper follows.
pub const TASK_RUN_RESULT: &'static str = ");

        *self = ";

/// The end of what running a task does.
pub const TASK_RUN_END: &'static str = " { complete: result };
    }
}

";

/// The name of the function follows.
pub const FN: &'static str = " fn ";

/// The handle follows.
pub const ARROW: &'static str = ") -> ";

/// The wrapper follows.
pub const ADD_TASK: &'static str = " {
    let data = ::autotask::Tasker::add_task(";

/// The names of the arguments follow.
pub const ADD_TASK_ARGS: &'static str = " {
        args: (";

/// The handle follows.
pub const MAKE_HANDLE: &'static str = ")
    });

    ";

/// The end.
pub const MAKE_HANDLE_FIELDS: &'static str = " {
        __ptr: data.0,
        __collect: data.1,
    }
}
";

} // verus!
