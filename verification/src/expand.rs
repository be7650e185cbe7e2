//! The code that a function becomes when it is made a task.
//!
//! The function `f` becomes a type for its arguments and its result, a handle from which
//! the result is taken, and a function `f` that adds the task and returns the handle.
use vstd::prelude::*;
use vstd::string::StrSliceExecFns;
use vstd::string::StringExecFns;
use quote::ToTokens;
use crate::generated;
use crate::template;
use crate::text;

verus! {

/// One argument of a function.
#[derive(Debug)]
pub enum FnInput {
    /// A `self` argument.
    Receiver,
    /// An argument of this type.
    Typed(String),
}

/// A function that is made a task, as text.
#[derive(Debug)]
pub struct TaskFn {
    /// The whole function.
    pub item: String,
    /// Its visibility.
    pub vis: String,
    /// Its name.
    pub name: String,
    /// Its arguments.
    pub inputs: Vec<FnInput>,
    /// The type that it returns, where it names one.
    pub output: Option<String>,
}

/// Why a function cannot be made a task.
#[derive(Clone, Copy, Debug, PartialEq, Eq)]
pub enum TaskError {
    /// The text is not a function.
    InvalidItem,
    /// The function has a `self` argument.
    SelfArgument,
    /// The function has more arguments than a tuple can be indexed by.
    TooManyArguments,
    /// The name of the function gives no name for a type.
    InvalidName,
}

/// The text of an argument.
pub enum FnInputText {
    Receiver,
    Typed(Seq<char>),
}

/// The texts of a function.
#[verifier::ext_equal]
pub struct TaskFnText {
    pub item: Seq<char>,
    pub vis: Seq<char>,
    pub name: Seq<char>,
    pub inputs: Seq<FnInputText>,
    pub output: Option<Seq<char>>,
}

impl View for FnInput {
    type V = FnInputText;

    open spec fn view(&self) -> FnInputText {
        match self {
            FnInput::Receiver => FnInputText::Receiver,
            FnInput::Typed(ty) => FnInputText::Typed(ty@),
        }
    }
}

impl View for TaskFn {
    type V = TaskFnText;

    open spec fn view(&self) -> TaskFnText {
        TaskFnText {
            item: self.item@,
            vis: self.vis@,
            name: self.name@,
            inputs: self.inputs@.map_values(|input: FnInput| input@),
            output: match self.output {
                Some(ty) => Some(ty@),
                None => None,
            },
        }
    }
}

/// The error of `syn`.
#[verifier::external_type_specification]
#[verifier::external_body]
pub struct ExSynError(syn::Error);

/// The function that `syn` reads from a text, where it reads one.
pub uninterp spec fn parsed_fn(text: Seq<char>) -> Option<TaskFnText>;

/// Calls `syn::parse_str` for an `ItemFn` and gives the parts of it as text, as
/// `ToTokens::to_token_stream` and `proc_macro2`'s printer write them. Claims that the
/// result depends on the text alone. `proc_macro2::fallback::force` keeps it so: without
/// it the compiler's printer, which spaces tokens in its own way, is used in a process
/// that the compiler runs for a macro. That switch stays on for the rest of the process.
#[verifier::external_body]
pub(crate) fn parse_fn(text: &str) -> (r: Result<TaskFn, syn::Error>)
    ensures
        match r {
            Ok(f) => parsed_fn(text@) == Some(f@),
            Err(_) => parsed_fn(text@) is None,
        },
{
    proc_macro2::fallback::force();
    let f = syn::parse_str::<syn::ItemFn>(text)?;
    let (item, vis) = (f.to_token_stream().to_string(), f.vis.to_token_stream().to_string());
    let inputs = f.sig.inputs.iter().map(|input| match input {
        syn::FnArg::Receiver(_) => FnInput::Receiver,
        syn::FnArg::Typed(v) => FnInput::Typed(v.ty.to_token_stream().to_string()),
    }).collect();
    let output = match &f.sig.output {
        syn::ReturnType::Default => None,
        syn::ReturnType::Type(_, ty) => Some(ty.to_token_stream().to_string()),
    };
    Ok(TaskFn { item, vis, name: f.sig.ident.to_string(), inputs, output })
}

/// Characters that words are made of when a name is put in capital case: the letters and
/// digits of ASCII, and the two other characters that differ from one of these letters
/// in case alone.
pub open spec fn is_word_char(c: char) -> bool {
    ||| '0' <= c <= '9'
    ||| 'A' <= c <= 'Z'
    ||| 'a' <= c <= 'z'
    ||| c == '\u{17f}'
    ||| c == '\u{212a}'
}

/// Whether a name can be put in capital case: no word starts with the long s, whose
/// first byte is no character.
pub open spec fn has_capital_case(name: Seq<char>) -> bool {
    forall|i: int|
        0 <= i < name.len() && #[trigger] name[i] == '\u{17f}' ==> i > 0 && is_word_char(
            name[i - 1],
        )
}

/// Whether a text is made of words and spaces, as a name in capital case is.
pub open spec fn is_words(text: Seq<char>) -> bool {
    forall|i: int| 0 <= i < text.len() ==> is_word_char(#[trigger] text[i]) || text[i] == ' '
}

/// A name in capital case, as `change_case` writes it.
pub uninterp spec fn capital_case_of(name: Seq<char>) -> Seq<char>;

/// Calls `change_case::captial_case`. Claims that the result depends on the name alone,
/// and that it is made of words and spaces. The outside function panics where a word
/// starts with the long s.
#[verifier::external_body]
pub(crate) fn capital_case(name: &str) -> (r: String)
    requires
        has_capital_case(name@),
    ensures
        r@ == capital_case_of(name@),
        is_words(r@),
{
    change_case::captial_case(name)
}

fn word_char(c: char) -> (r: bool)
    ensures
        r == is_word_char(c),
{
    ('0' <= c && c <= '9') || ('A' <= c && c <= 'Z') || ('a' <= c && c <= 'z') || c == '\u{17f}'
        || c == '\u{212a}'
}

/// Decides [`has_capital_case`].
fn check_capital_case(name: &str) -> (r: bool)
    ensures
        r == has_capital_case(name@),
{
    let n: usize = name.unicode_len();
    let mut i: usize = 0;
    while i < n
        invariant
            i <= n,
            n == name@.len(),
            forall|j: int|
                0 <= j < i && #[trigger] name@[j] == '\u{17f}' ==> j > 0 && is_word_char(
                    name@[j - 1],
                ),
        decreases n - i,
    {
        if name.get_char(i) == '\u{17f}' && (i == 0 || !word_char(name.get_char(i - 1))) {
            assert(name@[i as int] == '\u{17f}');
            return false;
        }
        i += 1;
    }
    true
}

/// What is wrong with the arguments, if anything is: the first argument that cannot be
/// taken decides.
pub open spec fn inputs_error(inputs: Seq<FnInputText>) -> Option<TaskError> {
    if exists|i: int| 0 <= i < inputs.len() && i <= u32::MAX && #[trigger] inputs[i] is Receiver {
        Some(TaskError::SelfArgument)
    } else if inputs.len() > u32::MAX {
        Some(TaskError::TooManyArguments)
    } else {
        None
    }
}

/// Decides [`inputs_error`].
fn check_inputs(f: &TaskFn) -> (r: Option<TaskError>)
    ensures
        r == inputs_error(f@.inputs),
{
    let mut i: usize = 0;
    while i < f.inputs.len()
        invariant
            i <= f.inputs.len(),
            i <= u32::MAX,
            forall|j: int| 0 <= j < i ==> !(#[trigger] f@.inputs[j] is Receiver),
        decreases f.inputs.len() - i,
    {
        assert(f@.inputs[i as int] == f.inputs@[i as int]@);
        match &f.inputs[i] {
            FnInput::Receiver => {
                return Some(TaskError::SelfArgument);
            },
            FnInput::Typed(_) => {
                if i as u64 >= u32::MAX as u64 {
                    return Some(TaskError::TooManyArguments);
                }
            },
        }
        i += 1;
    }
    None
}

/// The name of the handle of a task, from the name of the function in capital case.
pub open spec fn handle_name(capital: Seq<char>) -> Seq<char> {
    text::without_spaces(capital) + "Handle"@
}

/// The name of the type that holds the arguments and the result of a task.
pub open spec fn wrapper_name(capital: Seq<char>) -> Seq<char> {
    text::without_spaces(capital) + "Wrapper"@
}

/// The type of an argument.
pub open spec fn input_type(input: FnInputText) -> Seq<char> {
    match input {
        FnInputText::Receiver => Seq::empty(),
        FnInputText::Typed(ty) => ty,
    }
}

/// The name of argument `i` in the function that adds the task.
pub open spec fn input_name(i: nat) -> Seq<char> {
    "_"@ + text::decimal(i)
}

/// The types of the arguments.
pub open spec fn input_types(inputs: Seq<FnInputText>) -> Seq<Seq<char>> {
    Seq::new(inputs.len(), |i: int| input_type(inputs[i]))
}

/// The names of the arguments.
pub open spec fn input_names(n: nat) -> Seq<Seq<char>> {
    Seq::new(n, |i: int| input_name(i as nat))
}

/// The arguments as they are taken out of the tuple that holds them.
pub open spec fn input_fields(n: nat) -> Seq<Seq<char>> {
    Seq::new(n, |i: int| "__task."@ + text::decimal(i as nat))
}

/// The arguments as they are declared.
pub open spec fn input_params(inputs: Seq<FnInputText>) -> Seq<Seq<char>> {
    Seq::new(inputs.len(), |i: int| input_name(i as nat) + ": "@ + input_type(inputs[i]))
}

/// The type of the result: what the function names, or else the unit type.
pub open spec fn output_type(output: Option<Seq<char>>) -> Seq<char> {
    match output {
        Some(ty) => ty,
        None => "()"@,
    }
}

/// The declaration of the handle.
pub open spec fn handle_struct(handle: Seq<char>, wrapper: Seq<char>) -> Seq<char> {
    template::HANDLE_STRUCT@ + handle + template::HANDLE_FIELDS@ + wrapper
        + template::HANDLE_END@
}

/// The declaration of the wrapper.
pub open spec fn wrapper_union(
    wrapper: Seq<char>,
    types: Seq<char>,
    ret: Seq<char>,
) -> Seq<char> {
    template::WRAPPER_UNION@ + wrapper + template::WRAPPER_ARGS@ + types
        + template::WRAPPER_COMPLETE@ + ret + template::WRAPPER_END@
}

/// The methods of the handle.
pub open spec fn handle_impl(handle: Seq<char>, ret: Seq<char>) -> Seq<char> {
    template::HANDLE_IMPL@ + handle + template::HANDLE_GET@ + ret + template::HANDLE_GET_BODY@
}

/// What dropping a handle does.
pub open spec fn drop_impl(handle: Seq<char>) -> Seq<char> {
    template::HANDLE_DROP@ + handle + template::HANDLE_DROP_BODY@ + handle
        + template::HANDLE_DROP_END@
}

/// What running the task does.
pub open spec fn task_impl(
    wrapper: Seq<char>,
    item: Seq<char>,
    name: Seq<char>,
    fields: Seq<char>,
) -> Seq<char> {
    template::TASK_IMPL@ + wrapper + template::TASK_RUN@ + item + template::TASK_RUN_ARGS@
        + name + template::PAREN@ + fields + template::TASK_RUN_RESULT@ + wrapper
        + template::TASK_RUN_END@
}

/// The function that adds the task.
pub open spec fn adding_fn(
    vis: Seq<char>,
    name: Seq<char>,
    params: Seq<char>,
    handle: Seq<char>,
    wrapper: Seq<char>,
    names: Seq<char>,
) -> Seq<char> {
    vis + template::FN@ + name + template::PAREN@ + params + template::ARROW@ + handle
        + template::ADD_TASK@ + wrapper + template::ADD_TASK_ARGS@ + names
        + template::MAKE_HANDLE@ + handle + template::MAKE_HANDLE_FIELDS@
}

/// The code that a function becomes, from its name in capital case.
pub open spec fn expansion(f: TaskFnText, capital: Seq<char>) -> Seq<char> {
    let handle = handle_name(capital);
    let wrapper = wrapper_name(capital);
    let ret = output_type(f.output);
    let types = text::terminated(input_types(f.inputs), ","@);
    let names = text::terminated(input_names(f.inputs.len()), ","@);
    let fields = text::separated(input_fields(f.inputs.len()), ", "@);
    let params = text::separated(input_params(f.inputs), ", "@);
    handle_struct(handle, wrapper) + wrapper_union(wrapper, types, ret) + handle_impl(handle, ret)
        + drop_impl(handle) + task_impl(wrapper, f.item, f.name, fields) + adding_fn(
        f.vis,
        f.name,
        params,
        handle,
        wrapper,
        names,
    )
}

/// Whether a name is made of letters and digits and does not start with a digit.
pub open spec fn is_type_name(name: Seq<char>) -> bool {
    &&& name.len() > 0
    &&& !('0' <= name[0] <= '9')
    &&& forall|i: int| 0 <= i < name.len() ==> is_word_char(#[trigger] name[i])
}

/// The texts of a result.
pub open spec fn result_text(r: Result<String, TaskError>) -> Result<Seq<char>, TaskError> {
    match r {
        Ok(code) => Ok(code@),
        Err(error) => Err(error),
    }
}

/// What a function becomes, from its name in capital case.
pub open spec fn expand_result(f: TaskFnText, capital: Seq<char>) -> Result<
    Seq<char>,
    TaskError,
> {
    let name = text::without_spaces(capital);
    if inputs_error(f.inputs) is Some {
        Err(inputs_error(f.inputs)->0)
    } else if name.len() > 0 && '0' <= name[0] <= '9' {
        Err(TaskError::InvalidName)
    } else {
        Ok(expansion(f, capital))
    }
}

/// What a function becomes.
pub open spec fn function_result(f: TaskFnText) -> Result<Seq<char>, TaskError> {
    if inputs_error(f.inputs) is Some {
        Err(inputs_error(f.inputs)->0)
    } else if !has_capital_case(f.name) {
        Err(TaskError::InvalidName)
    } else {
        expand_result(f, capital_case_of(f.name))
    }
}

/// What a text becomes.
pub open spec fn task_result(item: Seq<char>) -> Result<Seq<char>, TaskError> {
    match parsed_fn(item) {
        Some(f) => function_result(f),
        None => Err(TaskError::InvalidItem),
    }
}

fn type_texts(f: &TaskFn) -> (r: Vec<String>)
    ensures
        text::texts(r@) == input_types(f@.inputs),
{
    let mut r: Vec<String> = Vec::new();
    let mut i: usize = 0;
    while i < f.inputs.len()
        invariant
            i <= f.inputs.len(),
            r.len() == i,
            forall|j: int| 0 <= j < i ==> (#[trigger] r@[j])@ == input_type(f@.inputs[j]),
        decreases f.inputs.len() - i,
    {
        assert(f@.inputs[i as int] == f.inputs@[i as int]@);
        match &f.inputs[i] {
            FnInput::Receiver => {
                r.push(String::new());
            },
            FnInput::Typed(ty) => {
                r.push(ty.clone());
            },
        }
        i += 1;
    }
    assert(text::texts(r@) =~= input_types(f@.inputs));
    r
}

fn name_text(i: usize) -> (r: String)
    ensures
        r@ == input_name(i as nat),
{
    let mut r: String = "_".to_owned();
    r.append(text::decimal_text(i).as_str());
    r
}

fn name_texts(n: usize) -> (r: Vec<String>)
    ensures
        text::texts(r@) == input_names(n as nat),
{
    let mut r: Vec<String> = Vec::new();
    let mut i: usize = 0;
    while i < n
        invariant
            i <= n,
            r.len() == i,
            forall|j: int| 0 <= j < i ==> (#[trigger] r@[j])@ == input_name(j as nat),
        decreases n - i,
    {
        r.push(name_text(i));
        i += 1;
    }
    assert(text::texts(r@) =~= input_names(n as nat));
    r
}

fn field_texts(n: usize) -> (r: Vec<String>)
    ensures
        text::texts(r@) == input_fields(n as nat),
{
    let mut r: Vec<String> = Vec::new();
    let mut i: usize = 0;
    while i < n
        invariant
            i <= n,
            r.len() == i,
            forall|j: int|
                0 <= j < i ==> (#[trigger] r@[j])@ == "__task."@ + text::decimal(j as nat),
        decreases n - i,
    {
        let mut field: String = "__task.".to_owned();
        field.append(text::decimal_text(i).as_str());
        r.push(field);
        i += 1;
    }
    assert(text::texts(r@) =~= input_fields(n as nat));
    r
}

fn param_texts(types: &Vec<String>, Ghost(inputs): Ghost<Seq<FnInputText>>) -> (r: Vec<String>)
    requires
        text::texts(types@) == input_types(inputs),
    ensures
        text::texts(r@) == input_params(inputs),
{
    let mut r: Vec<String> = Vec::new();
    let mut i: usize = 0;
    assert(types.len() == inputs.len()) by {
        assert(text::texts(types@).len() == types@.len());
        assert(input_types(inputs).len() == inputs.len());
    }
    while i < types.len()
        invariant
            i <= types.len(),
            types.len() == inputs.len(),
            text::texts(types@) == input_types(inputs),
            r.len() == i,
            forall|j: int|
                0 <= j < i ==> (#[trigger] r@[j])@ == input_name(j as nat) + ": "@ + input_type(
                    inputs[j],
                ),
        decreases types.len() - i,
    {
        let mut param: String = name_text(i);
        param.append(": ");
        param.append(types[i].as_str());
        assert(text::texts(types@)[i as int] == input_types(inputs)[i as int]);
        r.push(param);
        i += 1;
    }
    assert(text::texts(r@) =~= input_params(inputs));
    r
}

fn write_handle_struct(handle: &str, wrapper: &str) -> (r: String)
    ensures
        r@ == handle_struct(handle@, wrapper@),
{
    let mut out: String = template::HANDLE_STRUCT.to_owned();
    out.append(handle);
    out.append(template::HANDLE_FIELDS);
    out.append(wrapper);
    out.append(template::HANDLE_END);
    out
}

fn write_wrapper_union(wrapper: &str, types: &str, ret: &str) -> (r: String)
    ensures
        r@ == wrapper_union(wrapper@, types@, ret@),
{
    let mut out: String = template::WRAPPER_UNION.to_owned();
    out.append(wrapper);
    out.append(template::WRAPPER_ARGS);
    out.append(types);
    out.append(template::WRAPPER_COMPLETE);
    out.append(ret);
    out.append(template::WRAPPER_END);
    out
}

fn write_handle_impl(handle: &str, ret: &str) -> (r: String)
    ensures
        r@ == handle_impl(handle@, ret@),
{
    let mut out: String = template::HANDLE_IMPL.to_owned();
    out.append(handle);
    out.append(template::HANDLE_GET);
    out.append(ret);
    out.append(template::HANDLE_GET_BODY);
    out
}

fn write_drop_impl(handle: &str) -> (r: String)
    ensures
        r@ == drop_impl(handle@),
{
    let mut out: String = template::HANDLE_DROP.to_owned();
    out.append(handle);
    out.append(template::HANDLE_DROP_BODY);
    out.append(handle);
    out.append(template::HANDLE_DROP_END);
    out
}

fn write_task_impl(wrapper: &str, item: &str, name: &str, fields: &str) -> (r: String)
    ensures
        r@ == task_impl(wrapper@, item@, name@, fields@),
{
    let mut out: String = template::TASK_IMPL.to_owned();
    out.append(wrapper);
    out.append(template::TASK_RUN);
    out.append(item);
    out.append(template::TASK_RUN_ARGS);
    out.append(name);
    out.append(template::PAREN);
    out.append(fields);
    out.append(template::TASK_RUN_RESULT);
    out.append(wrapper);
    out.append(template::TASK_RUN_END);
    out
}

fn write_adding_fn(
    vis: &str,
    name: &str,
    params: &str,
    handle: &str,
    wrapper: &str,
    names: &str,
) -> (r: String)
    ensures
        r@ == adding_fn(vis@, name@, params@, handle@, wrapper@, names@),
{
    let mut out: String = vis.to_owned();
    out.append(template::FN);
    out.append(name);
    out.append(template::PAREN);
    out.append(params);
    out.append(template::ARROW);
    out.append(handle);
    out.append(template::ADD_TASK);
    out.append(wrapper);
    out.append(template::ADD_TASK_ARGS);
    out.append(names);
    out.append(template::MAKE_HANDLE);
    out.append(handle);
    out.append(template::MAKE_HANDLE_FIELDS);
    out
}

/// The code that a function becomes, where nothing is wrong with it.
fn write_expansion(f: &TaskFn, capital: &str, name: &str) -> (r: String)
    requires
        name@ == text::without_spaces(capital@),
    ensures
        r@ == expansion(f@, capital@),
{
    let mut handle: String = name.to_owned();
    handle.append("Handle");
    let mut wrapper: String = name.to_owned();
    wrapper.append("Wrapper");
    let ret: String = match &f.output {
        Some(ty) => ty.clone(),
        None => "()".to_owned(),
    };
    let n: usize = f.inputs.len();
    let type_list: Vec<String> = type_texts(f);
    let types: String = text::terminate(&type_list, ",");
    let names: String = text::terminate(&name_texts(n), ",");
    let fields: String = text::separate(&field_texts(n), ", ");
    let params: String = text::separate(&param_texts(&type_list, Ghost(f@.inputs)), ", ");
    let (handle, wrapper, ret): (&str, &str, &str) = (
        handle.as_str(),
        wrapper.as_str(),
        ret.as_str(),
    );
    let (item, vis, fn_name): (&str, &str, &str) = (
        f.item.as_str(),
        f.vis.as_str(),
        f.name.as_str(),
    );
    let mut out: String = write_handle_struct(handle, wrapper);
    out.append(write_wrapper_union(wrapper, types.as_str(), ret).as_str());
    out.append(write_handle_impl(handle, ret).as_str());
    out.append(write_drop_impl(handle).as_str());
    out.append(write_task_impl(wrapper, item, fn_name, fields.as_str()).as_str());
    out.append(
        write_adding_fn(vis, fn_name, params.as_str(), handle, wrapper, names.as_str()).as_str(),
    );
    out
}

/// Makes the code that a function becomes, from its name in capital case.
pub fn expand(f: &TaskFn, capital: &str) -> (r: Result<String, TaskError>)
    requires
        is_words(capital@),
    ensures
        result_text(r) == expand_result(f@, capital@),
        r matches Ok(code) ==> generated::code_says(code@, text::without_spaces(capital@), f@),
        r is Ok <==> ({
            let name = text::without_spaces(capital@);
            &&& f@.inputs.len() <= 0xffff_ffff
            &&& forall|i: int| 0 <= i < f@.inputs.len() ==> #[trigger] f@.inputs[i] is Typed
            &&& name.len() > 0 ==> !('0' <= name[0] <= '9')
        }),
        r == Err::<String, TaskError>(TaskError::SelfArgument) <==> (exists|i: int|
            0 <= i < f@.inputs.len() && i < 0x1_0000_0000 && #[trigger] f@.inputs[i] is Receiver),
        r == Err::<String, TaskError>(TaskError::TooManyArguments) <==> f@.inputs.len()
            > 0xffff_ffff && (forall|i: int|
            0 <= i < 0x1_0000_0000 ==> #[trigger] f@.inputs[i] is Typed),
        r != Err::<String, TaskError>(TaskError::InvalidItem),
{
    proof {
        law_inputs_accepted(f@.inputs);
        if expand_result(f@, capital@) is Ok {
            generated::law_code_says(
                f@,
                capital@,
                Seq::empty(),
                expand_result(f@, capital@)->Ok_0,
            );
        }
    }
    if let Some(error) = check_inputs(f) {
        return Err(error);
    }
    let name: String = text::remove_spaces(capital);
    if name.as_str().unicode_len() > 0 {
        let first: char = name.as_str().get_char(0);
        if '0' <= first && first <= '9' {
            return Err(TaskError::InvalidName);
        }
    }
    Ok(write_expansion(f, capital, name.as_str()))
}

/// Makes the code that a function becomes.
pub fn function(f: &TaskFn) -> (r: Result<String, TaskError>)
    ensures
        result_text(r) == function_result(f@),
        r is Ok ==> is_type_name(handle_name(capital_case_of(f@.name))),
        r is Ok ==> is_type_name(wrapper_name(capital_case_of(f@.name))),
        r matches Ok(code) ==> generated::code_says(
            code@,
            text::without_spaces(capital_case_of(f@.name)),
            f@,
        ),
        r is Ok ==> result_text(r) == expand_result(f@, capital_case_of(f@.name)),
        r is Ok <==> ({
            let name = text::without_spaces(capital_case_of(f@.name));
            &&& f@.inputs.len() <= 0xffff_ffff
            &&& forall|i: int| 0 <= i < f@.inputs.len() ==> #[trigger] f@.inputs[i] is Typed
            &&& has_capital_case(f@.name)
            &&& name.len() > 0 ==> !('0' <= name[0] <= '9')
        }),
        r == Err::<String, TaskError>(TaskError::SelfArgument) <==> (exists|i: int|
            0 <= i < f@.inputs.len() && i < 0x1_0000_0000 && #[trigger] f@.inputs[i] is Receiver),
        r == Err::<String, TaskError>(TaskError::TooManyArguments) <==> f@.inputs.len()
            > 0xffff_ffff && (forall|i: int|
            0 <= i < 0x1_0000_0000 ==> #[trigger] f@.inputs[i] is Typed),
        r != Err::<String, TaskError>(TaskError::InvalidItem),
{
    proof {
        law_inputs_accepted(f@.inputs);
    }
    if let Some(error) = check_inputs(f) {
        return Err(error);
    }
    if !check_capital_case(f.name.as_str()) {
        return Err(TaskError::InvalidName);
    }
    let capital: String = capital_case(f.name.as_str());
    proof {
        if expand_result(f@, capital@) is Ok {
            law_generated_names_are_identifiers(f@, capital@);
        }
    }
    expand(f, capital.as_str())
}

/// Makes the code that the function in the text `item` becomes.
pub fn task(item: &str) -> (r: Result<String, TaskError>)
    ensures
        result_text(r) == task_result(item@),
        parsed_fn(item@) matches Some(f) ==> result_text(r) == function_result(f),
        parsed_fn(item@) is None <==> r == Err::<String, TaskError>(TaskError::InvalidItem),
        r matches Ok(code) ==> parsed_fn(item@) is Some && generated::code_says(
            code@,
            text::without_spaces(capital_case_of(parsed_fn(item@)->0.name)),
            parsed_fn(item@)->0,
        ),
{
    match parse_fn(item) {
        Ok(f) => function(&f),
        Err(_) => Err(TaskError::InvalidItem),
    }
}

/// What an error says.
pub open spec fn error_message(error: TaskError) -> Seq<char> {
    match error {
        TaskError::InvalidItem => "invalid item"@,
        TaskError::SelfArgument => "tasks can't have a self argument"@,
        TaskError::TooManyArguments => "tasks can't have that many arguments"@,
        TaskError::InvalidName => "the name of the task gives no name for a type"@,
    }
}

impl TaskError {
    /// What is wrong, in words.
    pub fn message(&self) -> (r: &'static str)
        ensures
            r@ == error_message(*self),
            r@ == match *self {
                TaskError::InvalidItem => "invalid item"@,
                TaskError::SelfArgument => "tasks can't have a self argument"@,
                TaskError::TooManyArguments => "tasks can't have that many arguments"@,
                TaskError::InvalidName => "the name of the task gives no name for a type"@,
            },
    {
        match self {
            TaskError::InvalidItem => "invalid item",
            TaskError::SelfArgument => "tasks can't have a self argument",
            TaskError::TooManyArguments => "tasks can't have that many arguments",
            TaskError::InvalidName => "the name of the task gives no name for a type",
        }
    }
}

/// The handle and the wrapper of a task have different names.
pub proof fn law_generated_names_differ(capital: Seq<char>)
    ensures
        handle_name(capital) != wrapper_name(capital),
{
    reveal_strlit("Handle");
    reveal_strlit("Wrapper");
    assert(handle_name(capital).len() + 1 == wrapper_name(capital).len());
}

/// No two arguments of the function that adds a task have the same name.
pub proof fn law_input_names_differ(i: nat, j: nat)
    requires
        i != j,
    ensures
        input_name(i) != input_name(j),
{
    if input_name(i) == input_name(j) {
        let n = "_"@.len() as int;
        assert(input_name(i).skip(n) =~= text::decimal(i));
        assert(input_name(j).skip(n) =~= text::decimal(j));
        text::law_decimal_injective(i, j);
    }
}

/// Where code is generated from a name in capital case, the names of its types are made of
/// letters and digits and do not start with a digit.
pub proof fn law_generated_names_are_identifiers(f: TaskFnText, capital: Seq<char>)
    requires
        is_words(capital),
        expand_result(f, capital) is Ok,
    ensures
        is_type_name(handle_name(capital)),
        is_type_name(wrapper_name(capital)),
{
    reveal_strlit("Handle");
    reveal_strlit("Wrapper");
    text::lemma_without_spaces(capital);
}

/// A function is accepted for its arguments exactly where none is a `self` argument and there
/// are no more of them than a tuple can be indexed by. It is otherwise refused for a `self`
/// argument among those that can be indexed, and else for their number; for nothing else.
pub proof fn law_inputs_accepted(inputs: Seq<FnInputText>)
    ensures
        inputs_error(inputs) is None <==> inputs.len() <= 0xffff_ffff && (forall|i: int|
            0 <= i < inputs.len() ==> #[trigger] inputs[i] is Typed),
        inputs_error(inputs) == Some(TaskError::SelfArgument) <==> (exists|i: int|
            0 <= i < inputs.len() && i < 0x1_0000_0000 && #[trigger] inputs[i] is Receiver),
        inputs_error(inputs) == Some(TaskError::TooManyArguments) <==> inputs.len() > 0xffff_ffff
            && (forall|i: int| 0 <= i < 0x1_0000_0000 ==> #[trigger] inputs[i] is Typed),
{
    if inputs_error(inputs) == Some(TaskError::TooManyArguments) {
        assert forall|i: int| 0 <= i < 0x1_0000_0000 implies #[trigger] inputs[i] is Typed by {
            assert(!(inputs[i] is Receiver));
        }
    }
    if inputs_error(inputs) is None {
        assert forall|i: int| 0 <= i < inputs.len() implies #[trigger] inputs[i] is Typed by {
            assert(!(inputs[i] is Receiver));
        }
    }
}

/// A name that has a capital case keeps it when a character is added, unless that is a long s
/// that no character of a word stands in front of; the name of no characters has one, and a
/// name without a long s has one.
pub proof fn law_name_with_capital_case(name: Seq<char>, c: char)
    ensures
        has_capital_case(Seq::empty()),
        has_capital_case(name.push(c)) <==> has_capital_case(name) && (c == '\u{17f}' ==> name.len()
            > 0 && ({
            let last = name.last();
            ||| '0' <= last <= '9'
            ||| 'A' <= last <= 'Z'
            ||| 'a' <= last <= 'z'
            ||| last == '\u{17f}'
            ||| last == '\u{212a}'
        })),
        !name.contains('\u{17f}') ==> has_capital_case(name),
{
    let longer = name.push(c);
    assert(longer[name.len() as int] == c);
    if has_capital_case(longer) {
        assert forall|i: int| 0 <= i < name.len() && #[trigger] name[i] == '\u{17f}' implies i > 0
            && is_word_char(name[i - 1]) by {
            assert(longer[i] == name[i]);
        }
    }
    if has_capital_case(name) && (c == '\u{17f}' ==> name.len() > 0 && is_word_char(name.last())) {
        assert forall|i: int| 0 <= i < longer.len() && #[trigger] longer[i] == '\u{17f}' implies i
            > 0 && is_word_char(longer[i - 1]) by {
            if i < name.len() {
                assert(longer[i] == name[i]);
            }
        }
    }
}

/// A function becomes code exactly where its arguments are accepted, its name has a capital
/// case, and that does not start with a digit. The arguments are looked at first.
pub proof fn law_function_accepted(f: TaskFnText)
    ensures
        ({
            let name = text::without_spaces(capital_case_of(f.name));
            let named = has_capital_case(f.name) && (name.len() > 0 ==> !('0' <= name[0] <= '9'));
            &&& function_result(f) is Ok <==> inputs_error(f.inputs) is None && named
            &&& inputs_error(f.inputs) is None && !named ==> function_result(f) == Err::<
                Seq<char>,
                TaskError,
            >(TaskError::InvalidName)
            &&& inputs_error(f.inputs) is Some ==> function_result(f) == Err::<
                Seq<char>,
                TaskError,
            >(inputs_error(f.inputs)->0)
        }),
{
}

/// From a name in capital case a function becomes code exactly where its arguments are
/// accepted and the name does not start with a digit.
pub proof fn law_expansion_accepted(f: TaskFnText, capital: Seq<char>)
    ensures
        ({
            let name = text::without_spaces(capital);
            let named = name.len() > 0 ==> !('0' <= name[0] <= '9');
            &&& expand_result(f, capital) is Ok <==> inputs_error(f.inputs) is None && named
            &&& inputs_error(f.inputs) is None && !named ==> expand_result(f, capital) == Err::<
                Seq<char>,
                TaskError,
            >(TaskError::InvalidName)
            &&& inputs_error(f.inputs) is Some ==> expand_result(f, capital) == Err::<
                Seq<char>,
                TaskError,
            >(inputs_error(f.inputs)->0)
        }),
{
}

/// Errors that say the same are the same.
pub proof fn law_messages_differ(a: TaskError, b: TaskError)
    requires
        error_message(a) == error_message(b),
    ensures
        a == b,
{
    reveal_strlit("invalid item");
    reveal_strlit("tasks can't have a self argument");
    reveal_strlit("tasks can't have that many arguments");
    reveal_strlit("the name of the task gives no name for a type");
    assert("invalid item"@.len() == 12);
    assert("tasks can't have a self argument"@.len() == 32);
    assert("tasks can't have that many arguments"@.len() == 36);
    assert("the name of the task gives no name for a type"@.len() == 45);
}

/// The texts of a function are the texts of its parts, each argument in its place.
pub proof fn law_texts_of_parts(f: TaskFn)
    ensures
        f@.item == f.item@,
        f@.vis == f.vis@,
        f@.name == f.name@,
        f@.inputs.len() == f.inputs@.len(),
        forall|i: int|
            0 <= i < f.inputs@.len() ==> match f.inputs@[i] {
                FnInput::Receiver => #[trigger] f@.inputs[i] is Receiver,
                FnInput::Typed(ty) => f@.inputs[i] == FnInputText::Typed(ty@),
            },
        match f.output {
            Some(ty) => f@.output == Some(ty@),
            None => f@.output is None,
        },
{
    assert forall|i: int| 0 <= i < f.inputs@.len() implies match f.inputs@[i] {
        FnInput::Receiver => #[trigger] f@.inputs[i] is Receiver,
        FnInput::Typed(ty) => f@.inputs[i] == FnInputText::Typed(ty@),
    } by {
        assert(f@.inputs[i] == f.inputs@[i]@);
    }
}

/// What a text becomes is what the function becomes that is read from it, and that is what the
/// function becomes from its name in capital case wherever it becomes code at all.
pub proof fn law_task_is_function(item: Seq<char>, f: TaskFnText)
    requires
        parsed_fn(item) == Some(f),
    ensures
        task_result(item) == function_result(f),
        task_result(item) is Ok ==> task_result(item) == expand_result(f, capital_case_of(f.name)),
        task_result(item) != Err::<Seq<char>, TaskError>(TaskError::InvalidItem),
{
}

} // verus!
