use rlisp::lisp::Lisp;
use rlisp::repl::string_repl::StringRepl;
use rlisp::repl::vec_repl::VecRepl;
use rlisp::repl::Repl;
use rlisp::result::ErrorKind;
use rlisp::types::rlisperror::RlispErrorKind;
use rlisp::types::num::{try_flatten_float, whole_of};
use rlisp::types::{FloatOps, Object, RlispNum, RlispType};

struct Ieee;

fn fits_in_an_int(f: f64) -> bool {
    f <= i32::MAX as f64 && f >= i32::MIN as f64
}

impl FloatOps for Ieee {
    fn from_int(&self, i: i32) -> u64 {
        f64::from(i).to_bits()
    }
    fn float_add(&self, a: u64, b: u64) -> u64 {
        (f64::from_bits(a) + f64::from_bits(b)).to_bits()
    }
    fn float_sub(&self, a: u64, b: u64) -> u64 {
        (f64::from_bits(a) - f64::from_bits(b)).to_bits()
    }
    fn float_mul(&self, a: u64, b: u64) -> u64 {
        (f64::from_bits(a) * f64::from_bits(b)).to_bits()
    }
    fn float_div(&self, a: u64, b: u64) -> u64 {
        (f64::from_bits(a) / f64::from_bits(b)).to_bits()
    }
    fn float_rem(&self, a: u64, b: u64) -> u64 {
        (f64::from_bits(a) % f64::from_bits(b)).to_bits()
    }
    fn float_eq(&self, a: u64, b: u64) -> bool {
        f64::from_bits(a) == f64::from_bits(b)
    }
    fn float_lt(&self, a: u64, b: u64) -> bool {
        f64::from_bits(a) < f64::from_bits(b)
    }
    fn float_le(&self, a: u64, b: u64) -> bool {
        f64::from_bits(a) <= f64::from_bits(b)
    }
    fn trunc(&self, a: u64) -> u64 {
        f64::from_bits(a).trunc().to_bits()
    }
    fn floor(&self, a: u64) -> u64 {
        f64::from_bits(a).floor().to_bits()
    }
    fn ceil(&self, a: u64) -> u64 {
        f64::from_bits(a).ceil().to_bits()
    }
    fn round(&self, a: u64) -> u64 {
        f64::from_bits(a).round().to_bits()
    }
    fn abs(&self, a: u64) -> u64 {
        f64::from_bits(a).abs().to_bits()
    }
    fn parse(&self, token: &[u8]) -> Option<u64> {
        match std::str::from_utf8(token) {
            Ok(text) => match text.parse::<f64>() {
                Ok(f) => Some(f.to_bits()),
                Err(_) => None,
            },
            Err(_) => None,
        }
    }
    fn format(&self, bits: u64) -> Vec<u8> {
        format!("{}", f64::from_bits(bits)).into_bytes()
    }
}

fn run(source: &str) -> String {
    let mut input = String::from(source);
    let mut output = String::new();
    let mut error = String::new();
    let mut repl = StringRepl::new(Ieee);
    repl.run(&mut input, &mut output, &mut error).unwrap();
    output
}

#[test]
fn one_plus_one() {
    let mut input = String::from("(+ 1 1)");
    let mut output = String::new();
    let mut error = String::new();
    let mut repl = StringRepl::new(Ieee);
    repl.run(&mut input, &mut output, &mut error).unwrap();
    assert_eq!(output, "2");
}

#[test]
fn multiple_in_sequence() {
    let mut input = String::from("(defvar x 1) (setq x (+ x x)) x");
    let mut output = String::new();
    let mut error = String::new();
    let mut repl = StringRepl::new(Ieee);
    repl.run(&mut input, &mut output, &mut error).unwrap();
    assert_eq!(output, "2");
}

#[test]
fn print_a_number() {
    let lisp = Lisp::default();
    let one = Object::from_float_bits(1.0f64.to_bits());
    let text = lisp.print(&Ieee, one);
    println!("{}", String::from_utf8(text.clone()).unwrap());
    assert_eq!(text, b"1".to_vec());
}

#[test]
fn sum_of_three() {
    assert_eq!(run("(+ 1 2 3)"), "6");
}

#[test]
fn quote_leaves_its_argument_alone() {
    assert_eq!(run("(quote (a b c))"), "(a b c)");
    assert_eq!(run("'(a b c)"), "(a b c)");
}

#[test]
fn let_binds_in_a_new_frame() {
    assert_eq!(run("(let ((x 1) (y 2)) (+ x y))"), "3");
}

#[test]
fn defun_and_call() {
    assert_eq!(run("(defun square (n) (* n n)) (square 5)"), "25");
}

#[test]
fn catch_error_with_wildcard() {
    assert_eq!(run("(catch-error (car 5) (t \"caught\"))"), "\"caught\"");
}

#[test]
fn catch_error_by_kind() {
    assert_eq!(
        run("(catch-error (car 5) (wrong-type-error \"caught\"))"),
        "\"caught\""
    );
    assert_eq!(
        run("(catch-error (car 5) (unbound-symbol-error \"no\") (wrong-type-error \"yes\"))"),
        "\"yes\""
    );
}

#[test]
fn division_by_zero_is_infinity() {
    assert_eq!(run("(/ 1 0)"), "inf");
}

#[test]
fn cons_prints_as_dotted_pair_or_list() {
    assert_eq!(run("(cons 1 2)"), "(1 . 2)");
    assert_eq!(run("(cons 1 (cons 2 nil))"), "(1 2)");
}

#[test]
fn dotted_pairs_read_back() {
    assert_eq!(run("'(1 2 . 3)"), "(1 2 . 3)");
    assert_eq!(run("(cdr '(1 . 2))"), "2");
}

#[test]
fn unbound_symbol_short_circuits() {
    let out = run("(defvar hits 0) (+ 1 (unbound-sym) (setq hits 1)) hits");
    assert_eq!(out, "0");
    assert_eq!(
        run("(+ 1 (unbound-sym) 3)"),
        "ERROR: symbol unbound-sym is unbound"
    );
}

#[test]
fn arity_of_optional_parameters() {
    let define = "(defun f (a b &optional c) (list a b c)) ";
    assert_eq!(
        run(&format!("{}(f 1)", define)),
        "ERROR: wanted between 2 and 3 args but found 1"
    );
    assert_eq!(run(&format!("{}(f 1 2)", define)), "(1 2 nil)");
    assert_eq!(run(&format!("{}(f 1 2 3)", define)), "(1 2 3)");
    assert_eq!(
        run(&format!("{}(f 1 2 3 4)", define)),
        "ERROR: wanted between 2 and 3 args but found 4"
    );
}

#[test]
fn arity_of_rest_parameter() {
    let define = "(defun g (a &rest b) b) ";
    assert_eq!(run(&format!("{}(g 1 2 3 4 5)", define)), "(2 3 4 5)");
    assert_eq!(run(&format!("{}(g 1)", define)), "nil");
    assert_eq!(
        run(&format!("{}(g)", define)),
        "ERROR: wanted at least 1 args but found only 0"
    );
}

#[test]
fn wrong_args_count_carries_the_range() {
    let host = Ieee;
    let mut lisp = Lisp::default();
    let source = b"(defun f (a b &optional c) a) (f 1)";
    let mut pos = 0usize;
    let form = lisp.read(&host, source, &mut pos).unwrap().unwrap();
    lisp.eval(&host, form);
    let form = lisp.read(&host, source, &mut pos).unwrap().unwrap();
    let res = lisp.eval(&host, form);
    assert!(res.errorp());
    match lisp.heap.error(res).error {
        RlispErrorKind::BadArgsCount { min, max, found } => {
            assert_eq!(min, Object::from_int(2));
            assert_eq!(max, Object::from_int(3));
            assert_eq!(found, Object::from_int(1));
        }
        _ => panic!("another kind of error"),
    }
}

#[test]
fn closures_capture_their_scope() {
    let source = "(defun adder (n) (lambda (x) (+ x n))) (defvar add2 (adder 2)) (add2 40)";
    assert_eq!(run(source), "42");
}

#[test]
fn if_and_cond() {
    assert_eq!(run("(if t 1 2)"), "1");
    assert_eq!(run("(if nil 1 2)"), "2");
    assert_eq!(run("(if nil 1)"), "nil");
    assert_eq!(run("(if nil 1 2 3 4)"), "4");
    assert_eq!(run("(cond (nil 1) (t 2) (t 3))"), "2");
    assert_eq!(run("(cond (nil 1))"), "nil");
}

#[test]
fn recursion_stops_at_the_depth_limit() {
    assert_eq!(
        run("(defun loop (n) (loop n)) (loop 1)"),
        "ERROR: INTERNAL: evaluation nested too deeply"
    );
}

#[test]
fn recursive_function() {
    let source = "(defun fact (n) (if (= n 0) 1 (* n (fact (- n 1))))) (fact 10)";
    assert_eq!(run(source), "3628800");
}

#[test]
fn integers_overflow_into_doubles() {
    assert_eq!(run("(+ 2147483647 1)"), "2147483648");
    assert_eq!(run("(integerp (+ 2147483647 1))"), "nil");
    assert_eq!(run("(integerp (+ 2147483646 1))"), "t");
}

#[test]
fn type_predicates() {
    assert_eq!(run("(consp '(1))"), "t");
    assert_eq!(run("(consp 1)"), "nil");
    assert_eq!(run("(numberp 1.5)"), "t");
    assert_eq!(run("(floatp 1)"), "nil");
    assert_eq!(run("(symbolp 'a)"), "t");
    assert_eq!(run("(stringp \"a\")"), "t");
    assert_eq!(run("(functionp car)"), "t");
    assert_eq!(run("(boolp nil)"), "t");
    assert_eq!(run("(boolp 0)"), "nil");
    assert_eq!(run("(type-of 1)"), "integer");
    assert_eq!(run("(type-of 1.5)"), "float");
    assert_eq!(run("(eq 1 1.0)"), "nil");
    assert_eq!(run("(= 1 1.0)"), "t");
    assert_eq!(run("(eq 'a 'a)"), "t");
}

#[test]
fn strings_round_trip() {
    assert_eq!(run("\"a\\tb\\n\\\"c\\\"\""), "\"a\\tb\\n\\\"c\\\"\"");
    assert_eq!(run("\"back\\\\slash\""), "\"back\\\\slash\"");
}

#[test]
fn comments_are_skipped() {
    assert_eq!(run("; nothing here\n(+ 1 ; inside\n 2)"), "3");
}

#[test]
fn reader_failures() {
    let mut repl = StringRepl::new(Ieee);
    let mut output = String::new();
    let mut error = String::new();
    let mut input = String::from("(+ 1 2");
    assert_eq!(
        repl.run(&mut input, &mut output, &mut error),
        Err(ErrorKind::UnclosedList)
    );
    let mut input = String::from("\"abc");
    assert_eq!(
        repl.run(&mut input, &mut output, &mut error),
        Err(ErrorKind::UnclosedString)
    );
    let mut input = String::from("'");
    assert_eq!(
        repl.run(&mut input, &mut output, &mut error),
        Err(ErrorKind::UnexpectedEOF)
    );
}

#[test]
fn check_type_form() {
    assert_eq!(run("(check-type 1 integer)"), "1");
    assert_eq!(run("(check-type 1 number 1.5 number)"), "1.5");
    assert_eq!(
        run("(check-type 1 string)"),
        "ERROR: expected type string but found type integer"
    );
    assert_eq!(
        run("(check-type 1 nonsense)"),
        "ERROR: nonsense is not a type designator"
    );
}

#[test]
fn namespaces() {
    assert_eq!(
        run("(make-namespace box) (set box x 5) (get box x)"),
        "5"
    );
    assert_eq!(
        run("(make-namespace box) (get box y)"),
        "ERROR: symbol y is unbound"
    );
    assert_eq!(run("(namespacep (global-namespace))"), "t");
}

#[test]
fn what_type_of_each_kind() {
    assert_eq!(Object::nil().what_type(), RlispType::Bool);
    assert_eq!(Object::t().what_type(), RlispType::Bool);
    assert_eq!(Object::from_int(-7).what_type(), RlispType::Integer);
    assert_eq!(
        Object::from_float_bits(f64::NAN.to_bits()).what_type(),
        RlispType::Float
    );
    assert_eq!(
        Object::from_float_bits(f64::INFINITY.to_bits()).what_type(),
        RlispType::Float
    );
}

#[test]
fn integer_arithmetic() {
    assert_eq!(run("(+)"), "0");
    assert_eq!(run("(*)"), "1");
    assert_eq!(run("(-)"), "0");
    assert_eq!(run("(/)"), "1");
    assert_eq!(run("(- 5)"), "-5");
    assert_eq!(run("(- 10 1 2)"), "7");
    assert_eq!(run("(* 2 3 4)"), "24");
    assert_eq!(run("(+ -2147483648 -1)"), "-2147483649");
    assert_eq!(run("(* 65536 65536)"), "4294967296");
    assert_eq!(run("(- -2147483648)"), "2147483648");
    assert_eq!(run("(< 1 2)"), "t");
    assert_eq!(run("(< 2 1)"), "nil");
    assert_eq!(run("(<= 2 2)"), "t");
    assert_eq!(run("(> 3 2)"), "t");
    assert_eq!(run("(>= 2 3)"), "nil");
    assert_eq!(run("(= 1 1 1)"), "t");
    assert_eq!(run("(= 1 1 2)"), "nil");
    assert_eq!(run("(rem 7 3)"), "1");
    assert_eq!(run("(rem -7 3)"), "-1");
    assert_eq!(run("(mod -7 3)"), "1");
    assert_eq!(run("(abs -3)"), "3");
    assert_eq!(run("(abs 3)"), "3");
    assert_eq!(run("(trunc 3)"), "3");
    assert_eq!(run("(flatten 2.0)"), "2");
    assert_eq!(run("(integerp (flatten 2.0))"), "t");
    assert_eq!(run("(integerp (flatten 2.5))"), "nil");
}

#[test]
fn double_arithmetic() {
    assert_eq!(run("(+ 1.5 2)"), "3.5");
    assert_eq!(run("(/ 4 2)"), "2");
    assert_eq!(run("(floatp (/ 4 2))"), "t");
    assert_eq!(run("(/ 2)"), "0.5");
    assert_eq!(run("(floor 2.5)"), "2");
    assert_eq!(run("(ceil 2.5)"), "3");
    assert_eq!(run("(round 2.5)"), "3");
    assert_eq!(run("(trunc -2.5)"), "-2");
    assert_eq!(run("(abs -2.5)"), "2.5");
    assert_eq!(run("(rem 7 0)"), "NaN");
    assert_eq!(run("(< 1 1.5)"), "t");
    assert_eq!(run("+pi+"), format!("{}", std::f64::consts::PI));
    assert_eq!(run("1e3"), "1000");
    assert_eq!(run("-.5"), "-0.5");
}

#[test]
fn numbers_and_symbols_are_told_apart() {
    assert_eq!(run("(type-of 12)"), "integer");
    assert_eq!(run("(type-of -12)"), "integer");
    assert_eq!(run("(type-of +12)"), "integer");
    assert_eq!(run("(type-of 99999999999)"), "float");
    assert_eq!(run("(type-of '-)"), "symbol");
    assert_eq!(run("(type-of '+)"), "symbol");
    assert_eq!(run("(type-of 'e)"), "symbol");
    assert_eq!(run("(type-of 'inf)"), "symbol");
    assert_eq!(run("(type-of 'nan)"), "symbol");
    assert_eq!(run("(type-of '1+)"), "symbol");
    assert_eq!(run("(type-of 'nil)"), "boolean");
    assert_eq!(run("(type-of 't)"), "boolean");
    assert_eq!(run("(type-of \"s\")"), "string");
    assert_eq!(run("(type-of '(1))"), "cons");
    assert_eq!(run("(type-of car)"), "function");
    assert_eq!(
        run("(type-of (car 1))"),
        "ERROR: expected type cons but found type integer"
    );
}

#[test]
fn arguments_of_the_wrong_type_or_number() {
    assert_eq!(
        run("(+ 1 'a)"),
        "ERROR: expected type number but found type symbol"
    );
    assert_eq!(
        run("(cons 1)"),
        "ERROR: wanted between 2 and 2 args but found 1"
    );
    assert_eq!(
        run("(1 2)"),
        "ERROR: expected type function but found type integer"
    );
    assert_eq!(
        run("(quote)"),
        "ERROR: wanted between 1 and 1 args but found 0"
    );
    assert_eq!(
        run("(setq x)"),
        "ERROR: INTERNAL: the called function wants an even number of arguments"
    );
    assert_eq!(
        run("(car '(1 . 2) 3)"),
        "ERROR: wanted between 1 and 1 args but found 2"
    );
    assert_eq!(
        run("(+ 1 . 2)"),
        "ERROR: INTERNAL: an improperly terminated list"
    );
    assert_eq!(
        run("(defun f (a . b) a) (f 1)"),
        "ERROR: INTERNAL: an improperly terminated list"
    );
    assert_eq!(
        run("(nth '(1 2) 2)"),
        "ERROR: 2 is not a valid index into (1 2)"
    );
    assert_eq!(run("(nth '(1 2) 1)"), "2");
}

#[test]
fn errors_as_values() {
    assert_eq!(run("(error 'mine 1 2)"), "ERROR: mine: (1 2)");
    assert_eq!(run("(catch-error (error 'mine) (mine 1))"), "1");
    assert_eq!(run("(catch-error (error 'mine) (other 1))"), "ERROR: mine: nil");
    assert_eq!(run("(catch-error 5 (t 1))"), "5");
    assert_eq!(
        run("(catch-error (unbound) (unbound-symbol-error 7))"),
        "7"
    );
    assert_eq!(
        run("(catch-error (f) (wrong-arg-count-error 7) (unbound-symbol-error 8))"),
        "8"
    );
    assert_eq!(
        run("(defun f (a) a) (catch-error (f) (wrong-arg-count-error 7))"),
        "7"
    );
    assert_eq!(
        run("(catch-error (+ 1 . 2) (internal-error 7))"),
        "7"
    );
    assert_eq!(run("(wrong-type-error 'a 'b)"), "ERROR: expected type a but found type b");
    assert_eq!(
        run("(wrong-arg-count-error 1 2)"),
        "ERROR: wanted at least 2 args but found only 1"
    );
    assert_eq!(
        run("(improper-list-error)"),
        "ERROR: found an improper list where a proper one was expected"
    );
    assert_eq!(run("(unbound-symbol-error 'q)"), "ERROR: symbol q is unbound");
    assert_eq!(run("(type-designator-error 'q)"), "ERROR: q is not a type designator");
    assert_eq!(run("(undefined-symbol-error 'q)"), "ERROR: symbol q is undefined");
    assert_eq!(
        run("(index-out-of-bounds-error 3 '(1))"),
        "ERROR: 3 is not a valid index into (1)"
    );
}

#[test]
fn printing_goes_to_the_output() {
    let host = Ieee;
    let mut lisp = Lisp::default();
    let source = b"(print 1 \"two\" 'three) (debug '(4 . 5)) (print)";
    let mut pos = 0usize;
    let first = lisp.rep(&host, source, &mut pos).unwrap().unwrap();
    assert_eq!(first, b"3".to_vec());
    assert_eq!(lisp.output, b"1\"two\"three\n".to_vec());
    let second = lisp.rep(&host, source, &mut pos).unwrap().unwrap();
    assert_eq!(second, b"(4 . 5)".to_vec());
    let third = lisp.rep(&host, source, &mut pos).unwrap().unwrap();
    assert_eq!(third, b"nil".to_vec());
    assert_eq!(lisp.output, b"1\"two\"three\n(4 . 5)\n\n".to_vec());
    assert_eq!(lisp.rep(&host, source, &mut pos), Ok(None));
}

#[test]
fn setq_defines_globally_and_changes_in_place() {
    assert_eq!(run("(setq a 1 b 2) (+ a b)"), "3");
    assert_eq!(run("(setq)"), "nil");
    assert_eq!(
        run("(defvar x 1) (defun f (x) (setq x 5) x) (f 2) x"),
        "1"
    );
    assert_eq!(run("(defun g () (setq y 5)) (g) y"), "5");
    assert_eq!(run("(let ((x 1)) (let ((x 2)) x))"), "2");
    assert_eq!(run("(defvar x 1) (let ((x 2)) x) x"), "1");
    assert_eq!(run("(let () 7)"), "7");
    assert_eq!(run("(let ((x 1)))"), "nil");
    assert_eq!(
        run("(let ((x (unbound))) x)"),
        "ERROR: symbol unbound is unbound"
    );
}

#[test]
fn blank_input_leaves_the_output() {
    let mut repl = StringRepl::new(Ieee);
    let mut output = String::from("before");
    let mut error = String::new();
    let mut input = String::from("  ; only a comment\n\t");
    assert_eq!(repl.run(&mut input, &mut output, &mut error), Ok(()));
    assert_eq!(output, "before");
}

#[test]
fn vec_repl_over_bytes() {
    let mut repl = VecRepl::new(Ieee);
    let mut input = b"(list 1 2) (list 3)".to_vec();
    let mut output = Vec::new();
    let mut error = Vec::new();
    assert_eq!(repl.run(&mut input, &mut output, &mut error), Ok(()));
    assert_eq!(output, b"(3)".to_vec());
    let mut input = b"(list 1".to_vec();
    assert_eq!(
        repl.run(&mut input, &mut output, &mut error),
        Err(ErrorKind::UnclosedList)
    );
    let lisp = Lisp::default();
    let mut repl = VecRepl::from_lisp(lisp, Ieee);
    let mut input = b"(eq 'a 'a 'a)".to_vec();
    assert_eq!(repl.run(&mut input, &mut output, &mut error), Ok(()));
    assert_eq!(output, b"t".to_vec());
}

#[test]
fn deep_nesting_is_cut_off() {
    let mut source = String::new();
    for _ in 0..300 {
        source.push('(');
    }
    let mut repl = StringRepl::new(Ieee);
    let mut output = String::new();
    let mut error = String::new();
    assert_eq!(
        repl.run(&mut source, &mut output, &mut error),
        Err(ErrorKind::DepthExceeded)
    );
    assert_eq!(ErrorKind::DepthExceeded.description(), "evaluation nested too deeply");
}

#[test]
fn let_wants_bindings_of_a_symbol_and_a_value() {
    assert_eq!(
        run("(let (x) x)"),
        "ERROR: expected type cons but found type symbol"
    );
    assert_eq!(
        run("(let ((1 2)) 1)"),
        "ERROR: expected type symbol but found type integer"
    );
    assert_eq!(
        run("(let ((x)) x)"),
        "ERROR: expected type cons but found type boolean"
    );
    assert_eq!(
        run("(let ((x 1) . 5) x)"),
        "ERROR: INTERNAL: an improperly terminated list"
    );
    assert_eq!(
        run("(let ((x (car 5))) 1)"),
        "ERROR: expected type cons but found type integer"
    );
}

#[test]
fn let_with_an_empty_body_and_with_a_name_twice() {
    assert_eq!(run("(let ((x 1)))"), "nil");
    assert_eq!(run("(let ((x 1) (x 2)) x)"), "2");
    assert_eq!(run("(let () 7)"), "7");
    assert_eq!(run("(let ((x 1) (y (+ 1 1))) (cons x y))"), "(1 . 2)");
}

#[test]
fn let_takes_its_frame_off_after_an_error() {
    assert_eq!(run("(defvar x 1) (let ((x 2)) (car 5)) x"), "1");
    assert_eq!(run("(defvar x 1) (let ((x 2)) x) x"), "1");
}

#[test]
fn handlers_of_catch_error() {
    assert_eq!(
        run("(catch-error (car 5) 7)"),
        "ERROR: expected type cons but found type integer"
    );
    assert_eq!(
        run("(catch-error (car 5) (t))"),
        "ERROR: expected type cons but found type boolean"
    );
    assert_eq!(
        run("(catch-error (car 5) (improper-list-error 1))"),
        "ERROR: expected type cons but found type integer"
    );
    assert_eq!(run("(catch-error 5 (t 1))"), "5");
    assert_eq!(run("(catch-error (car 5) (t 1) (t 2))"), "1");
    assert_eq!(
        run("(catch-error (car 5) (improper-list-error 1) (wrong-type-error 2))"),
        "2"
    );
}

#[test]
fn set_gives_back_what_was_bound_before() {
    assert_eq!(run("(make-namespace box) (set box x 5)"), "nil");
    assert_eq!(run("(make-namespace box) (set box x 5) (set box x 6)"), "5");
    assert_eq!(
        run("(make-namespace box) (set box x 5) (set box x 6) (get box x)"),
        "6"
    );
    assert_eq!(
        run("(set 5 x 1)"),
        "ERROR: expected type namespace but found type integer"
    );
    assert_eq!(
        run("(make-namespace box) (set box x (car 5))"),
        "ERROR: expected type cons but found type integer"
    );
}

#[test]
fn functions_on_numbers_count_their_arguments() {
    assert_eq!(
        run("(< 1)"),
        "ERROR: wanted between 2 and 2 args but found 1"
    );
    assert_eq!(
        run("(abs 1 2)"),
        "ERROR: wanted between 1 and 1 args but found 2"
    );
    assert_eq!(run("(< 1 2)"), "t");
    assert_eq!(run("(>= 1 2)"), "nil");
    assert_eq!(run("(abs -3)"), "3");
    assert_eq!(run("(- 5)"), "-5");
    assert_eq!(run("(- 10 1 2)"), "7");
}

#[test]
fn quotes_nest_and_a_dot_needs_an_element_before_it() {
    assert_eq!(run("''a"), "(quote a)");
    assert_eq!(run("'(a 'b)"), "(a (quote b))");
    assert_eq!(run("'(1 . (2 . (3 . nil)))"), "(1 2 3)");
    let mut repl = StringRepl::new(Ieee);
    let mut output = String::new();
    let mut error = String::new();
    let mut input = String::from("'(a . b c)");
    assert_eq!(
        repl.run(&mut input, &mut output, &mut error),
        Err(ErrorKind::UnclosedList)
    );
    let mut input = String::from("'(a . )");
    assert_eq!(
        repl.run(&mut input, &mut output, &mut error),
        Err(ErrorKind::UnclosedList)
    );
}

#[test]
fn print_writes_each_argument_and_counts_them() {
    let mut lisp = Lisp::default();
    let text = b"(print 1 \"a\" 'b)";
    let mut pos: usize = 0;
    let shown = lisp.rep(&Ieee, text, &mut pos).unwrap().unwrap();
    assert_eq!(shown, b"3".to_vec());
    assert_eq!(lisp.output, b"1\"a\"b\n".to_vec());
    assert_eq!(pos, text.len());
    let mut pos: usize = 0;
    let shown = lisp.rep(&Ieee, b"(print)", &mut pos).unwrap().unwrap();
    assert_eq!(shown, b"nil".to_vec());
    assert_eq!(lisp.output, b"1\"a\"b\n\n".to_vec());
}

#[test]
fn the_loop_stops_at_the_first_failure_to_read() {
    let mut repl = VecRepl::new(Ieee);
    let mut input = b"(defvar x 4) x (+ x".to_vec();
    let mut output = Vec::new();
    let mut error = Vec::new();
    assert_eq!(
        repl.run(&mut input, &mut output, &mut error),
        Err(ErrorKind::UnclosedList)
    );
    assert_eq!(output, b"4".to_vec());
    let mut input = b"x".to_vec();
    assert_eq!(repl.run(&mut input, &mut output, &mut error), Ok(()));
    assert_eq!(output, b"4".to_vec());
}

fn whole_by_the_machine(f: f64) -> Option<i32> {
    if f.trunc() == f && fits_in_an_int(f) {
        Some(f as i32)
    } else {
        None
    }
}

#[test]
fn whole_numbers_are_read_from_the_bits() {
    assert_eq!(whole_of(0.0f64.to_bits()), Some(0));
    assert_eq!(whole_of((-0.0f64).to_bits()), Some(0));
    assert_eq!(whole_of(1.0f64.to_bits()), Some(1));
    assert_eq!(whole_of((-1.0f64).to_bits()), Some(-1));
    assert_eq!(whole_of(2147483647.0f64.to_bits()), Some(i32::MAX));
    assert_eq!(whole_of(2147483648.0f64.to_bits()), None);
    assert_eq!(whole_of((-2147483648.0f64).to_bits()), Some(i32::MIN));
    assert_eq!(whole_of((-2147483649.0f64).to_bits()), None);
    assert_eq!(whole_of(0.5f64.to_bits()), None);
    assert_eq!(whole_of(1.5f64.to_bits()), None);
    assert_eq!(whole_of(2147483646.5f64.to_bits()), None);
    assert_eq!(whole_of(3.0000000000000004f64.to_bits()), None);
    assert_eq!(whole_of(4503599627370496.0f64.to_bits()), None);
    assert_eq!(whole_of(1e300f64.to_bits()), None);
    assert_eq!(whole_of(f64::MIN_POSITIVE.to_bits()), None);
    assert_eq!(whole_of(1u64), None);
    assert_eq!(whole_of(f64::INFINITY.to_bits()), None);
    assert_eq!(whole_of(f64::NEG_INFINITY.to_bits()), None);
    assert_eq!(whole_of(f64::NAN.to_bits()), None);
}

#[test]
fn whole_numbers_are_what_the_machine_takes_for_whole() {
    let mut i: i64 = -2147483650;
    while i <= 2147483650 {
        let f = i as f64;
        for g in [f, f + 0.5, f - 0.25, f * 3.0, f / 7.0] {
            assert_eq!(whole_of(g.to_bits()), whole_by_the_machine(g));
        }
        i += 1048573;
    }
    let mut bits: u64 = 0;
    let mut n = 0;
    while n < 4096 {
        assert_eq!(
            whole_of(bits),
            whole_by_the_machine(f64::from_bits(bits))
        );
        let sign = bits ^ 0x8000_0000_0000_0000;
        assert_eq!(
            whole_of(sign),
            whole_by_the_machine(f64::from_bits(sign))
        );
        bits = bits.wrapping_add(0x0004_0001_0000_0401);
        n += 1;
    }
    let mut k = 0;
    while k < 64 {
        for bits in [1u64 << k, (1u64 << k) - 1, 0x4000_0000_0000_0000 | (1u64 << k)] {
            assert_eq!(
                whole_of(bits),
                whole_by_the_machine(f64::from_bits(bits))
            );
        }
        k += 1;
    }
}

#[test]
fn doubles_flatten_into_integers_where_they_are_whole() {
    assert_eq!(try_flatten_float(3.0f64.to_bits()), RlispNum::Int(3));
    assert_eq!(
        try_flatten_float(3.5f64.to_bits()),
        RlispNum::Float(3.5f64.to_bits())
    );
    assert_eq!(
        RlispNum::Float((-7.0f64).to_bits()).try_flatten(),
        RlispNum::Int(-7)
    );
    assert_eq!(RlispNum::Int(4).try_flatten(), RlispNum::Int(4));
    assert_eq!(
        RlispNum::Float(1e10f64.to_bits()).try_flatten(),
        RlispNum::Float(1e10f64.to_bits())
    );
    assert_eq!(
        RlispNum::Float(f64::NAN.to_bits()).try_flatten(),
        RlispNum::Float(f64::NAN.to_bits())
    );
}

#[test]
fn rounding_gives_integers_where_they_fit() {
    let x = RlispNum::Float(2.5f64.to_bits());
    assert_eq!(x.trunc(&Ieee), RlispNum::Int(2));
    assert_eq!(x.floor(&Ieee), RlispNum::Int(2));
    assert_eq!(x.ceil(&Ieee), RlispNum::Int(3));
    assert_eq!(x.round(&Ieee), RlispNum::Int(3));
    let y = RlispNum::Float((-2.5f64).to_bits());
    assert_eq!(y.trunc(&Ieee), RlispNum::Int(-2));
    assert_eq!(y.floor(&Ieee), RlispNum::Int(-3));
    assert_eq!(y.ceil(&Ieee), RlispNum::Int(-2));
    assert_eq!(y.round(&Ieee), RlispNum::Int(-3));
    let whole = RlispNum::Float(6.0f64.to_bits());
    assert_eq!(whole.trunc(&Ieee), RlispNum::Int(6));
    assert_eq!(whole.floor(&Ieee), RlispNum::Int(6));
    assert_eq!(whole.ceil(&Ieee), RlispNum::Int(6));
    assert_eq!(whole.round(&Ieee), RlispNum::Int(6));
    assert_eq!(RlispNum::Int(-9).trunc(&Ieee), RlispNum::Int(-9));
    assert_eq!(RlispNum::Int(-9).round(&Ieee), RlispNum::Int(-9));
    let big = RlispNum::Float(1e10f64.to_bits());
    assert_eq!(big.floor(&Ieee), big);
    let wide = RlispNum::Float(12345678901.5f64.to_bits());
    assert_eq!(
        wide.floor(&Ieee),
        RlispNum::Float(12345678901.0f64.to_bits())
    );
    assert_eq!(
        RlispNum::Float((-0.0f64).to_bits()).trunc(&Ieee),
        RlispNum::Int(0)
    );
    assert_eq!(
        RlispNum::Float((-0.5f64).to_bits()).ceil(&Ieee),
        RlispNum::Int(0)
    );
    assert_eq!(run("(floor 2.5)"), "2");
    assert_eq!(run("(ceil 2.5)"), "3");
    assert_eq!(run("(round -2.5)"), "-3");
    assert_eq!(run("(trunc -2.5)"), "-2");
    assert_eq!(run("(trunc 4.0)"), "4");
}

#[test]
fn a_quotient_is_a_double() {
    assert_eq!(
        RlispNum::Int(1).divided_by(&Ieee, RlispNum::Int(4)),
        RlispNum::Float(0.25f64.to_bits())
    );
    assert_eq!(
        RlispNum::Int(6).divided_by(&Ieee, RlispNum::Int(3)),
        RlispNum::Float(2.0f64.to_bits())
    );
    assert_eq!(
        RlispNum::Float(1.0f64.to_bits()).divided_by(&Ieee, RlispNum::Int(0)),
        RlispNum::Float(f64::INFINITY.to_bits())
    );
    assert_eq!(run("(/ 1 4)"), "0.25");
}
