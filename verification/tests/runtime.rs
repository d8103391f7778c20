use rlisp::builtins::RlispBuiltinFunc;
use rlisp::lisp::allocate::{Heap, Slot};
use rlisp::lisp::Lisp;
use rlisp::list::{iter, length, ConsIteratorResult};
use rlisp::result::ErrorKind;
use rlisp::symbols_table::{bytes_eq, type_from_name};
use rlisp::types::function::{ArgType, FunctionBody};
use rlisp::types::rlisperror::RlispErrorKind;
use rlisp::types::{
    ConsCell, FloatOps, Namespace, Object, ObjectTag, RlispError, RlispFunc, RlispType,
};

struct NoFloats;

impl FloatOps for NoFloats {
    fn from_int(&self, i: i32) -> u64 {
        f64::from(i).to_bits()
    }
    fn float_add(&self, a: u64, b: u64) -> u64 {
        (f64::from_bits(a) + f64::from_bits(b)).to_bits()
    }
    fn float_sub(&self, a: u64, b: u64) -> u64 {
        (f64::from_bits(a) - f64::from_bits(b)).to_bits()
    }
    fn float_mul(&self, a: u64, b: u64) -> u64 {
        (f64::from_bits(a) * f64::from_bits(b)).to_bits()
    }
    fn float_div(&self, a: u64, b: u64) -> u64 {
        (f64::from_bits(a) / f64::from_bits(b)).to_bits()
    }
    fn float_rem(&self, a: u64, b: u64) -> u64 {
        (f64::from_bits(a) % f64::from_bits(b)).to_bits()
    }
    fn float_eq(&self, a: u64, b: u64) -> bool {
        f64::from_bits(a) == f64::from_bits(b)
    }
    fn float_lt(&self, a: u64, b: u64) -> bool {
        f64::from_bits(a) < f64::from_bits(b)
    }
    fn float_le(&self, a: u64, b: u64) -> bool {
        f64::from_bits(a) <= f64::from_bits(b)
    }
    fn trunc(&self, a: u64) -> u64 {
        a
    }
    fn floor(&self, a: u64) -> u64 {
        a
    }
    fn ceil(&self, a: u64) -> u64 {
        a
    }
    fn round(&self, a: u64) -> u64 {
        a
    }
    fn abs(&self, a: u64) -> u64 {
        a
    }
    fn parse(&self, _token: &[u8]) -> Option<u64> {
        None
    }
    fn format(&self, bits: u64) -> Vec<u8> {
        format!("{}", f64::from_bits(bits)).into_bytes()
    }
}

fn eval_all(lisp: &mut Lisp, source: &str) -> Object {
    let host = NoFloats;
    let bytes = source.as_bytes();
    let mut pos = 0usize;
    let mut last = Object::nil();
    loop {
        match lisp.read(&host, bytes, &mut pos).unwrap() {
            Some(form) => {
                assert!(lisp.heap.is_valid(form));
                last = lisp.eval(&host, form);
            }
            None => return last,
        }
    }
}

fn text(lisp: &Lisp, obj: Object) -> String {
    String::from_utf8(lisp.print(&NoFloats, obj)).unwrap()
}

#[test]
fn interning_gives_one_symbol_per_name() {
    let mut lisp = Lisp::bare();
    let foo = lisp.make_symbol(b"foo");
    let again = lisp.make_symbol(b"foo");
    let bar = lisp.make_symbol(b"bar");
    assert!(foo.symbolp());
    assert_eq!(foo, again);
    assert_ne!(foo, bar);
    assert_eq!(lisp.heap.symbol(foo).as_bytes(), &b"foo".to_vec());
    assert_eq!(lisp.heap.symbol(foo).byte_at(-1), Some(b'o'));
    assert_eq!(lisp.syms_in_memory.len(), 2);
}

#[test]
fn an_inner_frame_shadows_and_is_taken_off_again() {
    let mut lisp = Lisp::bare();
    let x = lisp.make_symbol(b"x");
    let y = lisp.make_symbol(b"y");
    lisp.set_symbol(x.index(), Object::from_int(1));
    assert_eq!(lisp.get_symbol(x), Object::from_int(1));
    assert!(lisp.new_scope(&vec![(x.index(), Object::from_int(2))]));
    assert_eq!(lisp.scope().len(), 2);
    assert_eq!(lisp.get_symbol(x), Object::from_int(2));
    lisp.set_symbol(x.index(), Object::from_int(3));
    assert_eq!(lisp.get_symbol(x), Object::from_int(3));
    lisp.set_symbol(y.index(), Object::from_int(9));
    lisp.end_scope();
    assert_eq!(lisp.scope().len(), 1);
    assert_eq!(lisp.get_symbol(x), Object::from_int(1));
    assert_eq!(lisp.get_symbol(y), Object::from_int(9));
    let global = lisp.global_symbol_tab();
    assert_eq!(lisp.heap.namespace(global).len(), 2);
    assert_eq!(lisp.heap.namespace(global).get(y.index()), Some(Object::from_int(9)));
}

#[test]
fn special_symbols() {
    let mut lisp = Lisp::bare();
    let nil = lisp.make_symbol(b"nil");
    let t = lisp.make_symbol(b"t");
    let key = lisp.make_symbol(b":key");
    let free = lisp.make_symbol(b"free");
    assert_eq!(lisp.get_symbol(nil), Object::nil());
    assert_eq!(lisp.get_symbol(t), Object::t());
    assert_eq!(lisp.get_symbol(key), key);
    let e = lisp.get_symbol(free);
    assert!(e.errorp());
    match lisp.heap.error(e).error {
        RlispErrorKind::UnboundSymbol { sym } => assert_eq!(sym, free),
        _ => panic!("another kind of error"),
    }
}

#[test]
fn collection_keeps_what_the_stack_names() {
    let mut lisp = Lisp::bare();
    let inner = lisp.alloc_cons(Object::from_int(1), Object::nil());
    let kept = lisp.alloc_cons(inner, Object::nil());
    let lost = lisp.alloc_cons(Object::from_int(2), Object::nil());
    let lost_string = lisp.alloc_string(b"gone".to_vec());
    lisp.push(kept);
    let before = lisp.heap.len();
    assert!(lisp.heap.objects().contains(&lost));
    lisp.gc_pass();
    assert!(lisp.heap.is_valid(kept));
    assert!(lisp.heap.is_valid(inner));
    assert!(!lisp.heap.is_valid(lost));
    assert!(!lisp.heap.is_valid(lost_string));
    let live = lisp.heap.objects();
    assert!(live.contains(&kept));
    assert!(live.contains(&inner));
    assert!(!live.contains(&lost));
    assert!(!live.contains(&lost_string));
    assert_eq!(lisp.heap.len(), before - 2);
    assert_eq!(lisp.heap.cons(kept).car, inner);
    assert_eq!(lisp.gc_threshold, 2 * lisp.heap.len());
    assert_eq!(lisp.current_marking(), 2);
    assert_eq!(lisp.pop(), kept);
    lisp.gc_pass();
    assert!(!lisp.heap.is_valid(kept));
    assert!(!lisp.heap.is_valid(inner));
}

#[test]
fn collection_keeps_what_the_scope_binds() {
    let mut lisp = Lisp::bare();
    let x = lisp.make_symbol(b"x");
    let orphan = lisp.make_symbol(b"orphan");
    let value = lisp.alloc_string(b"held".to_vec());
    lisp.set_symbol(x.index(), value);
    lisp.gc_pass();
    assert!(lisp.heap.is_valid(x));
    assert!(lisp.heap.is_valid(value));
    assert!(!lisp.heap.is_valid(orphan));
    assert_eq!(lisp.syms_in_memory.len(), 1);
    assert_eq!(lisp.make_symbol(b"x"), x);
    let again = lisp.make_symbol(b"orphan");
    assert!(again.symbolp());
    assert!(lisp.heap.is_valid(again));
}

#[test]
fn freed_slots_are_given_out_again() {
    let mut lisp = Lisp::bare();
    let first = lisp.alloc_cons(Object::nil(), Object::nil());
    lisp.gc_pass();
    assert!(!lisp.heap.is_valid(first));
    let second = lisp.alloc_cons(Object::t(), Object::nil());
    assert_eq!(second.index(), first.index());
    assert!(lisp.heap.is_valid(second));
}

#[test]
fn the_threshold_decides_when_to_collect() {
    let mut lisp = Lisp::bare();
    lisp.gc_threshold = 100;
    let lost = lisp.alloc_cons(Object::nil(), Object::nil());
    assert!(!lisp.should_gc_run());
    lisp.gc_maybe_pass();
    assert!(lisp.heap.is_valid(lost));
    lisp.gc_threshold = 0;
    assert!(lisp.should_gc_run());
    lisp.gc_maybe_pass();
    assert!(!lisp.heap.is_valid(lost));
    lisp.update_gc_threshold();
    assert_eq!(lisp.gc_threshold, 2 * lisp.heap.len());
}

#[test]
fn the_markings_start_over_when_used_up() {
    let mut lisp = Lisp::bare();
    lisp.current_gc_mark = usize::MAX;
    let kept = lisp.alloc_cons(Object::nil(), Object::nil());
    lisp.push(kept);
    lisp.gc_pass();
    assert_eq!(lisp.current_marking(), 1);
    assert!(lisp.heap.is_valid(kept));
    assert_eq!(lisp.heap.marking_of(kept.index()), 0);
    lisp.gc_pass();
    assert_eq!(lisp.current_marking(), 2);
    assert!(lisp.heap.is_valid(kept));
    assert_eq!(lisp.heap.marking_of(kept.index()), 1);
}

#[test]
fn evaluation_survives_collections() {
    let mut lisp = Lisp::default();
    eval_all(
        &mut lisp,
        "(defun count (n) (if (= n 0) 0 (+ 1 (count (- n 1)))))
         (defun build (n) (if (= n 0) nil (cons n (build (- n 1)))))",
    );
    let mut round = 0;
    while round < 40 {
        lisp.gc_threshold = 0;
        let r = eval_all(&mut lisp, "(count 30)");
        assert_eq!(r, Object::from_int(30));
        lisp.gc_threshold = 0;
        let l = eval_all(&mut lisp, "(build 5)");
        assert_eq!(text(&lisp, l), "(5 4 3 2 1)");
        lisp.gc_threshold = 0;
        let v = eval_all(&mut lisp, "(let ((a (list 1 2)) (b (list 3 4))) (list a b))");
        assert_eq!(text(&lisp, v), "((1 2) (3 4))");
        round += 1;
    }
    lisp.gc_pass();
    let settled = lisp.heap.len();
    eval_all(&mut lisp, "(count 30) (build 20)");
    lisp.gc_pass();
    assert_eq!(lisp.heap.len(), settled);
    assert!(lisp.stack_vec().is_empty());
    assert_eq!(lisp.scope().len(), 1);
}

#[test]
fn an_error_empties_the_stack() {
    let mut lisp = Lisp::default();
    lisp.push(Object::from_int(7));
    let ok = eval_all(&mut lisp, "(+ 1 2)");
    assert_eq!(ok, Object::from_int(3));
    assert_eq!(lisp.stack_vec().len(), 1);
    let e = eval_all(&mut lisp, "(car 1)");
    assert!(e.errorp());
    assert!(lisp.stack_vec().is_empty());
    lisp.push(Object::nil());
    lisp.clean_stack();
    assert!(lisp.stack_vec().is_empty());
}

#[test]
fn lists_from_vectors() {
    let mut lisp = Lisp::bare();
    let elems = vec![Object::from_int(1), Object::from_int(2), Object::from_int(3)];
    let list = lisp.list_from_vec(elems.clone());
    assert_eq!(text(&lisp, list), "(1 2 3)");
    assert_eq!(length(&lisp.heap, list), 3);
    let (back, end) = lisp.heap.list_to_vec(list);
    assert_eq!(back, elems);
    assert_eq!(end, Object::nil());
    let improper = lisp.list_improper_from_vec(elems.clone());
    assert_eq!(text(&lisp, improper), "(1 2 . 3)");
    assert_eq!(length(&lisp.heap, improper), 3);
    let reversed = lisp.list_reverse(list);
    assert_eq!(text(&lisp, reversed), "(3 2 1)");
    assert_eq!(text(&lisp, list), "(1 2 3)");
    assert_eq!(lisp.list_from_vec(Vec::new()), Object::nil());
    assert_eq!(lisp.list_improper_from_vec(Vec::new()), Object::nil());
    let single = lisp.list_improper_from_vec(vec![Object::from_int(9)]);
    assert_eq!(single, Object::from_int(9));
    let onto = lisp.list_onto(&elems, list);
    assert_eq!(text(&lisp, onto), "(1 2 3 1 2 3)");
    let rev_onto = lisp.list_reversed_onto(&elems, Object::nil());
    assert_eq!(text(&lisp, rev_onto), "(3 2 1)");
}

#[test]
fn pushing_and_popping_lists() {
    let mut lisp = Lisp::bare();
    let mut list = Object::nil();
    lisp.list_push(&mut list, Object::from_int(2));
    lisp.list_push(&mut list, Object::from_int(1));
    assert_eq!(text(&lisp, list), "(1 2)");
    assert_eq!(lisp.list_pop(&mut list), Object::from_int(1));
    assert_eq!(lisp.list_pop(&mut list), Object::from_int(2));
    assert_eq!(list, Object::nil());
    assert_eq!(lisp.list_pop(&mut list), Object::nil());
}

#[test]
fn the_cursor_tells_proper_from_improper() {
    let mut lisp = Lisp::bare();
    let proper = lisp.list_from_vec(vec![Object::from_int(1), Object::from_int(2)]);
    let mut it = iter(&lisp.heap.cons(proper));
    assert!(matches!(it.improper_next(&lisp.heap), ConsIteratorResult::More(o) if o == Object::from_int(1)));
    assert!(matches!(it.improper_next(&lisp.heap), ConsIteratorResult::More(o) if o == Object::from_int(2)));
    assert!(matches!(it.improper_next(&lisp.heap), ConsIteratorResult::Final(None)));
    let improper = lisp.alloc_cons(Object::from_int(1), Object::from_int(2));
    let mut it = iter(&lisp.heap.cons(improper));
    assert!(matches!(it.improper_next(&lisp.heap), ConsIteratorResult::More(_)));
    assert!(matches!(it.improper_next(&lisp.heap), ConsIteratorResult::Final(Some(o)) if o == Object::from_int(2)));
    let mut it = iter(&lisp.heap.cons(improper));
    assert_eq!(it.next(&lisp.heap), Some(Object::from_int(1)));
    assert_eq!(it.next(&lisp.heap), None);
}

#[test]
fn ranges_of_parameter_lists() {
    let host = NoFloats;
    let mut lisp = Lisp::bare();
    let mut range = |source: &str| {
        let mut pos = 0usize;
        let list = lisp.read(&host, source.as_bytes(), &mut pos).unwrap().unwrap();
        (lisp.heap.acceptable_range(list), list)
    };
    assert_eq!(range("(a b &optional c)").0, Ok((2, Some(3))));
    assert_eq!(range("(a &rest b)").0, Ok((1, None)));
    assert_eq!(range("(&rest a b)").0, Ok((0, None)));
    assert_eq!(range("(&optional a b)").0, Ok((0, Some(2))));
    assert_eq!(range("(a b c)").0, Ok((3, Some(3))));
    assert_eq!(range("(a . b)").0, Err(ErrorKind::ImproperList));
    assert_eq!(range("(a 1)").0, Err(ErrorKind::RequiresArglist));
    let (_, list) = range("(a b &optional c)");
    assert_eq!(lisp.heap.arglist_compat(list, 1), Ok(false));
    assert_eq!(lisp.heap.arglist_compat(list, 2), Ok(true));
    assert_eq!(lisp.heap.arglist_compat(list, 3), Ok(true));
    assert_eq!(lisp.heap.arglist_compat(list, 4), Ok(false));
}

#[test]
fn binding_arguments_from_the_stack() {
    let host = NoFloats;
    let mut lisp = Lisp::bare();
    let mut pos = 0usize;
    let params = lisp.read(&host, b"(a &optional b &rest c)", &mut pos).unwrap().unwrap();
    lisp.push(Object::from_int(0));
    for n in [4, 3, 2, 1].iter() {
        lisp.push(Object::from_int(*n));
    }
    let r = lisp.get_args_for_lisp_func(params, 4);
    assert_eq!(r, Object::nil());
    assert_eq!(lisp.stack_vec().len(), 1);
    assert_eq!(lisp.scope().len(), 2);
    let a = lisp.make_symbol(b"a");
    let b = lisp.make_symbol(b"b");
    let c = lisp.make_symbol(b"c");
    assert_eq!(lisp.get_symbol(a), Object::from_int(1));
    assert_eq!(lisp.get_symbol(b), Object::from_int(2));
    let rest = lisp.get_symbol(c);
    assert_eq!(text(&lisp, rest), "(3 4)");
    lisp.end_scope();
    lisp.push(Object::from_int(1));
    let r = lisp.get_args_for_lisp_func(params, 1);
    assert_eq!(r, Object::nil());
    assert_eq!(lisp.get_symbol(b), Object::nil());
    assert_eq!(lisp.get_symbol(c), Object::nil());
    lisp.end_scope();
    let r = lisp.get_args_for_lisp_func(params, 0);
    assert!(r.errorp());
    assert_eq!(lisp.scope().len(), 1);
    match lisp.heap.error(r).error {
        RlispErrorKind::RustError(kind) => assert_eq!(kind, ErrorKind::OutOfArgs),
        _ => panic!("another kind of error"),
    }
}

#[test]
fn type_names() {
    assert_eq!(type_from_name(b"cons"), Some(RlispType::Cons));
    assert_eq!(type_from_name(b"number"), Some(RlispType::Number));
    assert_eq!(type_from_name(b"float"), Some(RlispType::Float));
    assert_eq!(type_from_name(b"namespace"), Some(RlispType::Namespace));
    assert_eq!(type_from_name(b"place"), None);
    assert_eq!(type_from_name(b"conses"), None);
    assert!(bytes_eq(b"abc", b"abc"));
    assert!(!bytes_eq(b"abc", b"abd"));
    assert!(!bytes_eq(b"abc", b"ab"));
    let mut lisp = Lisp::bare();
    let name = lisp.name_of_type(RlispType::Sym);
    assert_eq!(text(&lisp, name), "symbol");
    assert_eq!(lisp.type_from_symbol(name), Some(RlispType::Sym));
    let wrong = RlispErrorKind::wrong_type(Object::nil(), Object::nil());
    let caught_as = lisp.error_name(&wrong);
    assert_eq!(text(&lisp, caught_as), "wrong-type-error");
    let own = RlispErrorKind::Custom { kind: name, info: Object::nil() };
    assert_eq!(lisp.error_name(&own), name);
}

#[test]
fn errors_say_what_went_wrong() {
    let mut lisp = Lisp::bare();
    let cases: Vec<(RlispError, &str)> = vec![
        (
            RlispError::wrong_type(Object::from_int(1), Object::from_int(2)),
            "ERROR: expected type 1 but found type 2",
        ),
        (
            RlispError::bad_args_count(Object::from_int(1), Object::from_int(2), Object::nil()),
            "ERROR: wanted at least 2 args but found only 1",
        ),
        (
            RlispError::bad_args_count(Object::from_int(5), Object::from_int(2), Object::from_int(3)),
            "ERROR: wanted between 2 and 3 args but found 5",
        ),
        (
            RlispError::improper_list(),
            "ERROR: found an improper list where a proper one was expected",
        ),
        (RlispError::unbound_symbol(Object::from_int(1)), "ERROR: symbol 1 is unbound"),
        (RlispError::not_a_type(Object::from_int(1)), "ERROR: 1 is not a type designator"),
        (RlispError::undefined_symbol(Object::from_int(1)), "ERROR: symbol 1 is undefined"),
        (
            RlispError::index_out_of_bounds(Object::from_int(9), Object::nil()),
            "ERROR: 9 is not a valid index into nil",
        ),
        (RlispError::custom(Object::from_int(1), Object::t()), "ERROR: 1: t"),
        (
            RlispError::from_host(ErrorKind::StackUnderflow),
            "ERROR: INTERNAL: attempted to pop off an empty stack",
        ),
    ];
    for (error, expected) in cases {
        let obj = lisp.alloc_error(error);
        assert_eq!(text(&lisp, obj), expected);
    }
    assert_eq!(text(&lisp, Heap::out_of_memory()), "ERROR: INTERNAL: the heap is full");
}

#[test]
fn functions_and_namespaces_as_text() {
    let mut lisp = Lisp::bare();
    let name = lisp.make_symbol(b"f");
    let named = lisp.alloc_function(RlispFunc::from_body(Vec::new()).with_name(name));
    assert_eq!(text(&lisp, named), "#'f");
    let anonymous = lisp.alloc_function(
        RlispFunc::from_body(vec![Object::from_int(1)])
            .with_arglist(Object::nil())
            .with_scope(vec![lisp.global_symbol_tab()]),
    );
    assert_eq!(text(&lisp, anonymous), "ANONYMOUS FUNCTION");
    match &lisp.heap.function(anonymous).body {
        FunctionBody::LispFn(body) => assert_eq!(body, &vec![Object::from_int(1)]),
        _ => panic!("another kind of body"),
    }
    let plain = lisp.alloc_namespace(Namespace::new());
    assert_eq!(text(&lisp, plain), "<anonymous namespace>");
    let called = lisp.alloc_namespace(Namespace::default().with_name(name));
    assert_eq!(text(&lisp, called), "<namespace f>");
    let maybe = Namespace::new().with_maybe_name(None);
    assert!(maybe.name.is_none());
    assert!(ArgType::Mandatory != ArgType::Rest);
}

#[test]
fn namespaces_keep_their_keys_in_order() {
    let mut table = Namespace::new();
    assert_eq!(table.insert(5, Object::from_int(1)), None);
    assert_eq!(table.insert(3, Object::from_int(2)), None);
    assert_eq!(table.insert(5, Object::from_int(3)), Some(Object::from_int(1)));
    assert_eq!(table.len(), 2);
    assert!(table.contains_key(3));
    assert!(!table.contains_key(4));
    assert_eq!(table.get(5), Some(Object::from_int(3)));
    assert_eq!(table.get(4), None);
    assert_eq!(
        table.iter(),
        vec![(5, Object::from_int(3)), (3, Object::from_int(2))]
    );
}

#[test]
fn a_full_heap_is_an_error_value() {
    let oom = Heap::out_of_memory();
    assert!(oom.errorp());
    assert_eq!(oom.index(), 0);
    let heap = Heap::new();
    assert!(heap.is_valid(oom));
    assert!(!heap.is_full());
    assert_eq!(heap.len(), 1);
    assert_eq!(heap.kind_of(0), Some(ObjectTag::Error));
    assert_eq!(heap.kind_of(1), None);
    assert!(matches!(heap.slot(0), Slot::Error(_)));
    assert!(!heap.is_valid(Object::reference(ObjectTag::Cons, 1)));
    assert!(!heap.is_valid(Object::reference(ObjectTag::Place, 0)));
    assert!(heap.is_valid(Object::nil()));
    let cell = ConsCell::new(Object::nil(), Object::t());
    assert_eq!(cell.car, Object::nil());
    assert_eq!(cell.cdr, Object::t());
}

#[test]
fn marking_by_hand() {
    let mut lisp = Lisp::bare();
    let inner = lisp.alloc_cons(Object::nil(), Object::nil());
    let outer = lisp.alloc_cons(inner, Object::nil());
    let other = lisp.alloc_cons(Object::nil(), Object::nil());
    lisp.mark(outer);
    let mark = lisp.current_marking();
    assert_eq!(lisp.heap.marking_of(outer.index()), mark);
    assert_eq!(lisp.heap.marking_of(inner.index()), mark);
    assert_eq!(lisp.heap.marking_of(other.index()), 0);
    assert_eq!(lisp.heap.children_of(outer.index()), vec![inner.index()]);
    lisp.push(other);
    lisp.mark_stack();
    assert_eq!(lisp.heap.marking_of(other.index()), mark);
    lisp.mark_scope();
    assert_eq!(lisp.heap.marking_of(lisp.global_symbol_tab()), mark);
    lisp.sweep();
    assert!(lisp.heap.is_valid(outer));
    lisp.inc_gc_mark();
    assert_eq!(lisp.current_marking(), mark + 1);
}

#[test]
fn a_runtime_starts_with_its_functions_and_a_bare_one_without() {
    let mut lisp = Lisp::default();
    let car = lisp.make_symbol(b"car");
    let found = lisp.get_symbol(car);
    assert!(found.functionp());
    match &lisp.heap.function(found).body {
        FunctionBody::RustFn(f) => assert_eq!(f.name(), "car"),
        _ => panic!("another kind of function"),
    }
    assert_eq!(lisp.heap.function(found).name, Some(car));
    let quote = lisp.make_symbol(b"quote");
    let form = lisp.get_symbol(quote);
    match &lisp.heap.function(form).body {
        FunctionBody::SpecialForm(f) => assert_eq!(f.name(), "quote"),
        _ => panic!("another kind of function"),
    }
    let pi = lisp.make_symbol(b"+pi+");
    assert_eq!(
        lisp.get_symbol(pi),
        Object::from_float_bits(std::f64::consts::PI.to_bits())
    );
    let mut bare = Lisp::bare();
    let car = bare.make_symbol(b"car");
    assert!(bare.get_symbol(car).errorp());
    assert_eq!(bare.heap.len(), 4);
    assert_eq!(bare.macro_chars, vec![(b'\'', b"quote".to_vec())]);
}

#[test]
fn defining_a_native_function_binds_its_name() {
    let mut lisp = Lisp::bare();
    let f = lisp.define_native(
        "first",
        &vec!["list"],
        RlispFunc::from_builtin(RlispBuiltinFunc::Car),
    );
    assert!(f.functionp());
    let name = lisp.make_symbol(b"first");
    assert_eq!(lisp.get_symbol(name), f);
    let params = lisp.heap.function(f).arglist.unwrap();
    let (items, end) = lisp.heap.list_to_vec(params);
    assert_eq!(end, Object::nil());
    assert_eq!(items, vec![lisp.make_symbol(b"list")]);
}
