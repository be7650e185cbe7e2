//! What the generated code says, place by place.
use vstd::prelude::*;
use crate::expand;
use crate::expand::FnInputText;
use crate::expand::TaskError;
use crate::expand::TaskFnText;
use crate::template;
use crate::text;

verus! {

/// Whether `code` holds, without a gap, `lead`, then each of `items` followed by `end`, then
/// `close`, where the first of `items` stands at `from`.
pub open spec fn ended_list_at(
    code: Seq<char>,
    from: int,
    lead: Seq<char>,
    items: Seq<Seq<char>>,
    end: Seq<char>,
    close: Seq<char>,
) -> bool {
    &&& text::stands_at(code, from - lead.len(), lead)
    &&& forall|i: int|
        0 <= i < items.len() ==> #[trigger] text::item_ended(code, from, items, end, i)
    &&& text::stands_at(
        code,
        from + text::place(items, end.len() as int, items.len() as int),
        close,
    )
}

/// Whether `code` holds, without a gap, `lead`, then `items` with `separator` between them,
/// then `close`, where the first of `items` stands at `from`.
pub open spec fn separated_list_at(
    code: Seq<char>,
    from: int,
    lead: Seq<char>,
    items: Seq<Seq<char>>,
    separator: Seq<char>,
    close: Seq<char>,
) -> bool {
    let extra = separator.len() as int;
    &&& text::stands_at(code, from - lead.len(), lead)
    &&& forall|i: int|
        0 <= i < items.len() ==> #[trigger] text::item_separated(code, from, items, separator, i)
    &&& text::stands_at(
        code,
        from + if items.len() == 0 {
            0
        } else {
            text::place(items, extra, items.len() as int) - extra
        },
        close,
    )
}

/// A list whose texts are each followed by `end`, in the middle of a text.
proof fn lemma_ended_list(
    before: Seq<char>,
    lead: Seq<char>,
    items: Seq<Seq<char>>,
    end: Seq<char>,
    close: Seq<char>,
    after: Seq<char>,
)
    ensures
        ended_list_at(
            before + lead + text::terminated(items, end) + close + after,
            (before.len() + lead.len()) as int,
            lead,
            items,
            end,
            close,
        ),
{
    let list = text::terminated(items, end);
    let all = before + lead + list + close + after;
    let from = (before.len() + lead.len()) as int;
    text::law_terminated_places(items, end);
    assert(all.subrange(before.len() as int, from) =~= lead);
    assert(all.subrange(from + list.len(), from + list.len() + close.len()) =~= close);
    assert forall|i: int| 0 <= i < items.len() implies #[trigger] text::item_ended(
        all,
        from,
        items,
        end,
        i,
    ) by {
        let at = text::place(items, end.len() as int, i);
        assert(text::item_ended(list, 0, items, end, i));
        assert(all =~= (before + lead) + list + (close + after));
        text::lemma_stands_in_whole(before + lead, list, close + after, at, items[i]);
        text::lemma_stands_in_whole(
            before + lead,
            list,
            close + after,
            at + items[i].len(),
            end,
        );
    }
}

/// A list with `separator` between its texts, in the middle of a text.
proof fn lemma_separated_list(
    before: Seq<char>,
    lead: Seq<char>,
    items: Seq<Seq<char>>,
    separator: Seq<char>,
    close: Seq<char>,
    after: Seq<char>,
)
    ensures
        separated_list_at(
            before + lead + text::separated(items, separator) + close + after,
            (before.len() + lead.len()) as int,
            lead,
            items,
            separator,
            close,
        ),
{
    let list = text::separated(items, separator);
    let all = before + lead + list + close + after;
    let from = (before.len() + lead.len()) as int;
    text::law_separated_places(items, separator);
    assert(all.subrange(before.len() as int, from) =~= lead);
    assert(all.subrange(from + list.len(), from + list.len() + close.len()) =~= close);
    assert forall|i: int| 0 <= i < items.len() implies #[trigger] text::item_separated(
        all,
        from,
        items,
        separator,
        i,
    ) by {
        let at = text::place(items, separator.len() as int, i);
        assert(text::item_separated(list, 0, items, separator, i));
        assert(all =~= (before + lead) + list + (close + after));
        text::lemma_stands_in_whole(before + lead, list, close + after, at, items[i]);
        if i + 1 < items.len() {
            text::lemma_stands_in_whole(
                before + lead,
                list,
                close + after,
                at + items[i].len(),
                separator,
            );
        }
    }
}

/// Four texts behind another are one text behind it.
proof fn lemma_group(x: Seq<char>, a: Seq<char>, b: Seq<char>, c: Seq<char>, d: Seq<char>)
    ensures
        x + a + (b + c) + d == x + (a + b + c + d),
        x + a + b + c + d == x + (a + b + c + d),
{
    assert(x + a + (b + c) + d =~= x + (a + b + c + d));
    assert(x + a + b + c + d =~= x + (a + b + c + d));
}

/// Three texts between two others, grouped or one by one.
proof fn lemma_group_between(x: Seq<char>, a: Seq<char>, b: Seq<char>, c: Seq<char>, y: Seq<char>)
    ensures
        x + (a + b + c) + y == x + a + b + c + y,
{
    assert(x + (a + b + c) + y =~= x + a + b + c + y);
}

/// Six texts behind another are one text behind it.
proof fn lemma_group_of_six(
    x: Seq<char>,
    a: Seq<char>,
    b: Seq<char>,
    c: Seq<char>,
    d: Seq<char>,
    e: Seq<char>,
    f: Seq<char>,
)
    ensures
        x + a + b + c + d + e + f == x + (a + b + c + d + e + f),
{
    assert(x + a + b + c + d + e + f =~= x + (a + b + c + d + e + f));
}

/// The types of the arguments of a function that has no `self` argument, in their order.
pub open spec fn types_of(f: TaskFnText) -> Seq<Seq<char>> {
    Seq::new(f.inputs.len(), |i: int| f.inputs[i]->Typed_0)
}

/// The type that a function returns: the one that it names, or else the unit type.
pub open spec fn output_of(f: TaskFnText) -> Seq<char> {
    if f.output is Some {
        f.output->0
    } else {
        "()"@
    }
}

/// The names that the arguments of a task are given, one for each of `n` arguments.
pub open spec fn names_of(n: nat) -> Seq<Seq<char>> {
    Seq::new(n, |i: int| "_"@ + text::decimal(i as nat))
}

/// The fields of the tuple that holds `n` arguments.
pub open spec fn fields_of(n: nat) -> Seq<Seq<char>> {
    Seq::new(n, |i: int| "__task."@ + text::decimal(i as nat))
}

/// The arguments of a task, each declared with its name and its type.
pub open spec fn params_of(f: TaskFnText) -> Seq<Seq<char>> {
    Seq::new(
        f.inputs.len(),
        |i: int| "_"@ + text::decimal(i as nat) + ": "@ + f.inputs[i]->Typed_0,
    )
}

/// Whether the wrapper declares the arguments as a tuple, each type followed by a comma, and
/// then the result. Its name is made from `name`.
pub open spec fn wrapper_lists_types(code: Seq<char>, name: Seq<char>, f: TaskFnText) -> bool {
    exists|from: int|
        #[trigger] ended_list_at(
            code,
            from,
            "union "@ + name + "Wrapper"@ + " {\n    args: ("@,
            types_of(f),
            ","@,
            "),\n    complete: "@ + output_of(f) + ",\n}\n\n"@,
        )
}

/// Whether the task that is added holds the arguments as a tuple, each name followed by a
/// comma, and becomes a handle.
pub open spec fn added_task_lists_names(code: Seq<char>, name: Seq<char>, f: TaskFnText) -> bool {
    exists|from: int|
        #[trigger] ended_list_at(
            code,
            from,
            " {\n    let data = ::autotask::Tasker::add_task("@ + name + "Wrapper"@
                + " {\n        args: ("@,
            names_of(f.inputs.len()),
            ","@,
            ")\n    });\n\n    "@ + name + "Handle"@ + " {\n        __ptr: data.0,\n        __collect: data.1,\n    }\n}\n"@,
        )
}

/// Whether running the task calls the function with the fields of the tuple, in their order,
/// and stores the result in the wrapper.
pub open spec fn call_lists_fields(code: Seq<char>, name: Seq<char>, f: TaskFnText) -> bool {
    exists|from: int|
        #[trigger] separated_list_at(
            code,
            from,
            "impl ::autotask::Task for "@ + name + "Wrapper"@
                + " {\n    fn run(&mut self) {\n        "@ + f.item
                + "\n\n        let __task = unsafe { self.args };\n\n        let result = "@ + f.name
                + "("@,
            fields_of(f.inputs.len()),
            ", "@,
            ");\n\n        *self = "@ + name + "Wrapper"@ + " { complete: result };\n    }\n}\n\n"@,
        )
}

/// Whether the function that adds the task has the visibility, the name and the arguments of
/// the function, each with its type, and returns the handle.
pub open spec fn adding_fn_lists_params(code: Seq<char>, name: Seq<char>, f: TaskFnText) -> bool {
    exists|from: int|
        #[trigger] separated_list_at(
            code,
            from,
            f.vis + " fn "@ + f.name + "("@,
            params_of(f),
            ", "@,
            ") -> "@ + name + "Handle"@ + " {\n    let data = ::autotask::Tasker::add_task("@,
        )
}

/// Whether the handle gives back a value of the type that the function returns.
pub open spec fn handle_gives_output(code: Seq<char>, name: Seq<char>, f: TaskFnText) -> bool {
    exists|from: int|
        #[trigger] text::stands_at(
            code,
            from,
            "impl "@ + name + "Handle"@ + " {\n    pub fn get(self) -> "@ + output_of(f),
        )
}

/// The wrapper of a task, of any number of arguments, one included, declares a tuple of the
/// types of the arguments: between `args: (` and `)` stands each type, in its order, followed
/// by a comma. So what stands there has the length of the types and one for each of them, and
/// the type of an argument stands behind those of the earlier ones with their commas. Behind
/// the tuple the wrapper declares the type of the result.
pub proof fn law_wrapper_lists_types(f: TaskFnText, capital: Seq<char>, code: Seq<char>)
    requires
        expand::expand_result(f, capital) == Ok::<Seq<char>, TaskError>(code),
    ensures
        wrapper_lists_types(code, text::without_spaces(capital), f),
{
    let name = text::without_spaces(capital);
    let handle = expand::handle_name(capital);
    let wrapper = expand::wrapper_name(capital);
    let lead = "union "@ + name + "Wrapper"@ + " {\n    args: ("@;
    let close = "),\n    complete: "@ + output_of(f) + ",\n}\n\n"@;
    let list = text::terminated(types_of(f), ","@);
    let before = expand::handle_struct(handle, wrapper);
    let union = expand::wrapper_union(wrapper, list, output_of(f));
    let after = after_wrapper(f, capital);
    lemma_items(f, capital);
    assert(template::WRAPPER_UNION@ + wrapper =~= template::WRAPPER_UNION@ + name + "Wrapper"@);
    assert(union =~= lead + list + close);
    lemma_group_between(before, lead, list, close, after);
    lemma_ended_list(before, lead, types_of(f), ","@, close, after);
    assert(code == before + lead + list + close + after);
    assert(ended_list_at(
        code,
        (before.len() + lead.len()) as int,
        lead,
        types_of(f),
        ","@,
        close,
    ));
}

/// What stands behind the declaration of the wrapper.
spec fn after_wrapper(f: TaskFnText, capital: Seq<char>) -> Seq<char> {
    let handle = expand::handle_name(capital);
    expand::handle_impl(handle, output_of(f)) + expand::drop_impl(handle) + running(f, capital)
        + adding(f, capital)
}

/// What running the task does.
spec fn running(f: TaskFnText, capital: Seq<char>) -> Seq<char> {
    expand::task_impl(
        expand::wrapper_name(capital),
        f.item,
        f.name,
        text::separated(fields_of(f.inputs.len()), ", "@),
    )
}

/// The function that adds the task.
spec fn adding(f: TaskFnText, capital: Seq<char>) -> Seq<char> {
    expand::adding_fn(
        f.vis,
        f.name,
        text::separated(params_of(f), ", "@),
        expand::handle_name(capital),
        expand::wrapper_name(capital),
        text::terminated(names_of(f.inputs.len()), ","@),
    )
}

/// What stands in front of what running the task does.
spec fn before_running(f: TaskFnText, capital: Seq<char>) -> Seq<char> {
    let handle = expand::handle_name(capital);
    let wrapper = expand::wrapper_name(capital);
    let types = text::terminated(types_of(f), ","@);
    expand::handle_struct(handle, wrapper) + expand::wrapper_union(wrapper, types, output_of(f))
        + expand::handle_impl(handle, output_of(f)) + expand::drop_impl(handle)
}

/// The items of the code, cut at each of the lists.
proof fn lemma_items(f: TaskFnText, capital: Seq<char>)
    requires
        expand::expand_result(f, capital) is Ok,
    ensures
        ({
            let code = expand::expand_result(f, capital)->Ok_0;
            let handle = expand::handle_name(capital);
            let wrapper = expand::wrapper_name(capital);
            let types = text::terminated(types_of(f), ","@);
            let union = expand::wrapper_union(wrapper, types, output_of(f));
            let get = expand::handle_impl(handle, output_of(f));
            &&& code == expand::handle_struct(handle, wrapper) + union + after_wrapper(f, capital)
            &&& code == expand::handle_struct(handle, wrapper) + union + get + (expand::drop_impl(
                handle,
            ) + running(f, capital) + adding(f, capital))
            &&& code == before_running(f, capital) + running(f, capital) + adding(f, capital)
        }),
{
    let code = expand::expand_result(f, capital)->Ok_0;
    let handle = expand::handle_name(capital);
    let wrapper = expand::wrapper_name(capital);
    assert forall|i: int| 0 <= i < f.inputs.len() implies !(#[trigger] f.inputs[i] is Receiver) by {
        assert(i <= u32::MAX);
    }
    assert(expand::input_types(f.inputs) =~= types_of(f));
    assert(expand::input_names(f.inputs.len()) =~= names_of(f.inputs.len()));
    assert(expand::input_fields(f.inputs.len()) =~= fields_of(f.inputs.len()));
    assert(expand::input_params(f.inputs) =~= params_of(f));
    assert(expand::output_type(f.output) == output_of(f));
    assert(code == before_running(f, capital) + running(f, capital) + adding(f, capital));
    let types = text::terminated(types_of(f), ","@);
    let a = expand::handle_struct(handle, wrapper) + expand::wrapper_union(
        wrapper,
        types,
        output_of(f),
    );
    let (b, c, d, e) = (
        expand::handle_impl(handle, output_of(f)),
        expand::drop_impl(handle),
        running(f, capital),
        adding(f, capital),
    );
    assert(a + b + c + d + e =~= a + (b + c + d + e));
    assert(a + b + c + d + e =~= a + b + (c + d + e));
}

/// The task that is added holds a tuple of the names of the arguments: between `args: (` and
/// `)` stands each name, in its order, followed by a comma.
pub proof fn law_added_task_lists_names(f: TaskFnText, capital: Seq<char>, code: Seq<char>)
    requires
        expand::expand_result(f, capital) == Ok::<Seq<char>, TaskError>(code),
    ensures
        added_task_lists_names(code, text::without_spaces(capital), f),
{
    let name = text::without_spaces(capital);
    let handle = expand::handle_name(capital);
    let names = names_of(f.inputs.len());
    let lead = " {\n    let data = ::autotask::Tasker::add_task("@ + name + "Wrapper"@
        + " {\n        args: ("@;
    let close = ")\n    });\n\n    "@ + name + "Handle"@ + " {\n        __ptr: data.0,\n        __collect: data.1,\n    }\n}\n"@;
    let list = text::terminated(names, ","@);
    let params = text::separated(params_of(f), ", "@);
    let front = f.vis + template::FN@ + f.name + template::PAREN@ + params + template::ARROW@
        + handle;
    let behind = before_running(f, capital) + running(f, capital);
    let before = behind + front;
    lemma_items(f, capital);
    lemma_group(front, template::ADD_TASK@, name, "Wrapper"@, template::ADD_TASK_ARGS@);
    lemma_group(
        front + lead + list,
        template::MAKE_HANDLE@,
        name,
        "Handle"@,
        template::MAKE_HANDLE_FIELDS@,
    );
    assert(adding(f, capital) == front + lead + list + close);
    lemma_group(behind, front, lead, list, close);
    lemma_ended_list(before, lead, names, ","@, close, Seq::empty());
    assert(before + lead + list + close + Seq::empty() =~= before + lead + list + close);
    assert(code == before + lead + list + close + Seq::empty());
    assert(ended_list_at(
        code,
        (before.len() + lead.len()) as int,
        lead,
        names,
        ","@,
        close,
    ));
}

/// Running the task declares the function, calls it with the fields of the tuple, in their
/// order and with a comma between them, and stores the result in the wrapper.
pub proof fn law_call_lists_fields(f: TaskFnText, capital: Seq<char>, code: Seq<char>)
    requires
        expand::expand_result(f, capital) == Ok::<Seq<char>, TaskError>(code),
    ensures
        call_lists_fields(code, text::without_spaces(capital), f),
{
    let name = text::without_spaces(capital);
    let fields = fields_of(f.inputs.len());
    let lead = "impl ::autotask::Task for "@ + name + "Wrapper"@
        + " {\n    fn run(&mut self) {\n        "@ + f.item
        + "\n\n        let __task = unsafe { self.args };\n\n        let result = "@ + f.name
        + "("@;
    let close = ");\n\n        *self = "@ + name + "Wrapper"@
        + " { complete: result };\n    }\n}\n\n"@;
    let list = text::separated(fields, ", "@);
    let before = before_running(f, capital);
    lemma_items(f, capital);
    let wrapper = expand::wrapper_name(capital);
    assert(template::TASK_IMPL@ + wrapper =~= template::TASK_IMPL@ + name + "Wrapper"@);
    lemma_group(
        lead + list,
        template::TASK_RUN_RESULT@,
        name,
        "Wrapper"@,
        template::TASK_RUN_END@,
    );
    assert(running(f, capital) == lead + list + close);
    lemma_group_between(before, lead, list, close, adding(f, capital));
    lemma_separated_list(before, lead, fields, ", "@, close, adding(f, capital));
    assert(code == before + lead + list + close + adding(f, capital));
    assert(separated_list_at(
        code,
        (before.len() + lead.len()) as int,
        lead,
        fields,
        ", "@,
        close,
    ));
}

/// The function that adds the task is declared with the visibility and the name of the
/// function and takes its arguments, each with its name and its type, in their order and with
/// a comma between them. It returns the handle.
pub proof fn law_adding_fn_lists_params(f: TaskFnText, capital: Seq<char>, code: Seq<char>)
    requires
        expand::expand_result(f, capital) == Ok::<Seq<char>, TaskError>(code),
    ensures
        adding_fn_lists_params(code, text::without_spaces(capital), f),
{
    let name = text::without_spaces(capital);
    let handle = expand::handle_name(capital);
    let wrapper = expand::wrapper_name(capital);
    let params = params_of(f);
    let lead = f.vis + " fn "@ + f.name + "("@;
    let close = ") -> "@ + name + "Handle"@ + " {\n    let data = ::autotask::Tasker::add_task("@;
    let list = text::separated(params, ", "@);
    let names = text::terminated(names_of(f.inputs.len()), ","@);
    let after = wrapper + template::ADD_TASK_ARGS@ + names + template::MAKE_HANDLE@ + handle
        + template::MAKE_HANDLE_FIELDS@;
    let before = before_running(f, capital) + running(f, capital);
    lemma_items(f, capital);
    lemma_group(lead + list, template::ARROW@, name, "Handle"@, template::ADD_TASK@);
    lemma_group_of_six(
        lead + list + close,
        wrapper,
        template::ADD_TASK_ARGS@,
        names,
        template::MAKE_HANDLE@,
        handle,
        template::MAKE_HANDLE_FIELDS@,
    );
    assert(adding(f, capital) == lead + list + close + after);
    lemma_group(before, lead, list, close, after);
    lemma_separated_list(before, lead, params, ", "@, close, after);
    assert(code == before + lead + list + close + after);
    assert(separated_list_at(
        code,
        (before.len() + lead.len()) as int,
        lead,
        params,
        ", "@,
        close,
    ));
}

/// The handle gives back a value of the type that the function returns.
pub proof fn law_handle_gives_output(f: TaskFnText, capital: Seq<char>, code: Seq<char>)
    requires
        expand::expand_result(f, capital) == Ok::<Seq<char>, TaskError>(code),
    ensures
        handle_gives_output(code, text::without_spaces(capital), f),
{
    let name = text::without_spaces(capital);
    let handle = expand::handle_name(capital);
    let wrapper = expand::wrapper_name(capital);
    let types = text::terminated(types_of(f), ","@);
    let piece = "impl "@ + name + "Handle"@ + " {\n    pub fn get(self) -> "@ + output_of(f);
    let before = expand::handle_struct(handle, wrapper) + expand::wrapper_union(
        wrapper,
        types,
        output_of(f),
    );
    let get = expand::handle_impl(handle, output_of(f));
    let after = expand::drop_impl(handle) + running(f, capital) + adding(f, capital);
    lemma_items(f, capital);
    assert(get.subrange(0, piece.len() as int) =~= piece);
    text::lemma_stands_in_whole(before, get, after, 0, piece);
    assert(text::stands_at(code, before.len() as int, piece));
}

/// The whole code: the fixed pieces in their order, with the names, the function, the type of
/// the result and the lists of the arguments between them, whatever texts `types`, `names`,
/// `fields` and `params` are that have each entry of their list in its place. Nothing else
/// stands in it, so that codes of two functions differ only where these do.
pub proof fn law_code_is_pieces(
    f: TaskFnText,
    capital: Seq<char>,
    code: Seq<char>,
    types: Seq<char>,
    names: Seq<char>,
    fields: Seq<char>,
    params: Seq<char>,
)
    requires
        expand::expand_result(f, capital) == Ok::<Seq<char>, TaskError>(code),
        is_ended_list(types, types_of(f), ","@),
        is_ended_list(names, names_of(f.inputs.len()), ","@),
        is_separated_list(fields, fields_of(f.inputs.len()), ", "@),
        is_separated_list(params, params_of(f), ", "@),
    ensures
        ({
            let handle = text::without_spaces(capital) + "Handle"@;
            let wrapper = text::without_spaces(capital) + "Wrapper"@;
            let output = output_of(f);
            code == (template::HANDLE_STRUCT@ + handle + template::HANDLE_FIELDS@ + wrapper
                + template::HANDLE_END@) + (template::WRAPPER_UNION@ + wrapper
                + template::WRAPPER_ARGS@ + types + template::WRAPPER_COMPLETE@ + output
                + template::WRAPPER_END@) + (template::HANDLE_IMPL@ + handle
                + template::HANDLE_GET@ + output + template::HANDLE_GET_BODY@) + (
            template::HANDLE_DROP@ + handle + template::HANDLE_DROP_BODY@ + handle
                + template::HANDLE_DROP_END@) + (template::TASK_IMPL@ + wrapper
                + template::TASK_RUN@ + f.item + template::TASK_RUN_ARGS@ + f.name
                + template::PAREN@ + fields + template::TASK_RUN_RESULT@ + wrapper
                + template::TASK_RUN_END@) + (f.vis + template::FN@ + f.name + template::PAREN@
                + params + template::ARROW@ + handle + template::ADD_TASK@ + wrapper
                + template::ADD_TASK_ARGS@ + names + template::MAKE_HANDLE@ + handle
                + template::MAKE_HANDLE_FIELDS@)
        }),
{
    text::law_terminated_is_only(types_of(f), ","@, types);
    text::law_terminated_is_only(names_of(f.inputs.len()), ","@, names);
    text::law_separated_is_only(fields_of(f.inputs.len()), ", "@, fields);
    text::law_separated_is_only(params_of(f), ", "@, params);
    lemma_items(f, capital);
}

/// Whether a text is `items`, each followed by `end`, and nothing more.
pub open spec fn is_ended_list(all: Seq<char>, items: Seq<Seq<char>>, end: Seq<char>) -> bool {
    &&& all.len() == text::place(items, end.len() as int, items.len() as int)
    &&& forall|i: int|
        0 <= i < items.len() ==> #[trigger] text::item_ended(all, 0, items, end, i)
}

/// Whether a text is `items` with `separator` between them, and nothing more.
pub open spec fn is_separated_list(
    all: Seq<char>,
    items: Seq<Seq<char>>,
    separator: Seq<char>,
) -> bool {
    &&& items.len() == 0 ==> all.len() == 0
    &&& items.len() > 0 ==> all.len() + separator.len() == text::place(
        items,
        separator.len() as int,
        items.len() as int,
    )
    &&& forall|i: int|
        0 <= i < items.len() ==> #[trigger] text::item_separated(all, 0, items, separator, i)
}

/// What the code says of a function whose name, in capital case and without spaces, is `name`.
pub open spec fn code_says(code: Seq<char>, name: Seq<char>, f: TaskFnText) -> bool {
    &&& wrapper_lists_types(code, name, f)
    &&& added_task_lists_names(code, name, f)
    &&& call_lists_fields(code, name, f)
    &&& adding_fn_lists_params(code, name, f)
    &&& handle_gives_output(code, name, f)
}

/// The code of a function says of it, from its name in capital case, what it takes and what it
/// gives back; so does the code of a function that is read from a text.
pub proof fn law_code_says(f: TaskFnText, capital: Seq<char>, item: Seq<char>, code: Seq<char>)
    ensures
        expand::expand_result(f, capital) == Ok::<Seq<char>, TaskError>(code) ==> code_says(
            code,
            text::without_spaces(capital),
            f,
        ),
        expand::function_result(f) == Ok::<Seq<char>, TaskError>(code) ==> code_says(
            code,
            text::without_spaces(expand::capital_case_of(f.name)),
            f,
        ),
        expand::task_result(item) == Ok::<Seq<char>, TaskError>(code) ==> expand::parsed_fn(
            item,
        ) is Some && code_says(
            code,
            text::without_spaces(expand::capital_case_of(expand::parsed_fn(item)->0.name)),
            expand::parsed_fn(item)->0,
        ),
{
    if expand::expand_result(f, capital) == Ok::<Seq<char>, TaskError>(code) {
        lemma_code_says(f, capital, code);
    }
    if expand::function_result(f) == Ok::<Seq<char>, TaskError>(code) {
        lemma_code_says(f, expand::capital_case_of(f.name), code);
    }
    if expand::task_result(item) == Ok::<Seq<char>, TaskError>(code) {
        let g = expand::parsed_fn(item)->0;
        lemma_code_says(g, expand::capital_case_of(g.name), code);
    }
}

proof fn lemma_code_says(f: TaskFnText, capital: Seq<char>, code: Seq<char>)
    requires
        expand::expand_result(f, capital) == Ok::<Seq<char>, TaskError>(code),
    ensures
        code_says(code, text::without_spaces(capital), f),
{
    law_wrapper_lists_types(f, capital, code);
    law_added_task_lists_names(f, capital, code);
    law_call_lists_fields(f, capital, code);
    law_adding_fn_lists_params(f, capital, code);
    law_handle_gives_output(f, capital, code);
}

} // verus!
