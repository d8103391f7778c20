use rlisp::builtins::builtin_vars;
use rlisp::lisp::Lisp;
use rlisp::types::conversions::{FromObject, FromUnchecked, MaybeFrom, MaybeInto, Ptr};
use rlisp::types::into_object::IntoObject;
use rlisp::types::num::oddp;
use rlisp::types::{
    ConsCell, ImmediateTag, Namespace, Object, ObjectTag, RlispNum, RlispType, CANONICAL_NAN,
    MAX_PTR,
};

const ALL_TAGS: [ObjectTag; 8] = [
    ObjectTag::Cons,
    ObjectTag::Sym,
    ObjectTag::String,
    ObjectTag::Function,
    ObjectTag::Error,
    ObjectTag::Namespace,
    ObjectTag::Immediate,
    ObjectTag::Place,
];

#[test]
fn floats() {
    let one_and_a_half = Object::from_float_bits(1.5f64.to_bits());
    assert_eq!(
        RlispNum::maybe_from(one_and_a_half),
        Some(RlispNum::Float(1.5f64.to_bits()))
    );
    assert_eq!(f64::from_bits(one_and_a_half.float_bits()), 1.5);
    assert!(<Ptr<ConsCell>>::maybe_from(one_and_a_half).is_none());
}

#[test]
fn integers() {
    let one = Object::from_int(1);
    assert_eq!(<i32 as MaybeFrom<Object>>::maybe_from(one), Some(1));
    assert!(<Ptr<ConsCell>>::maybe_from(one).is_none());

    let many = Object::from_int(i32::MAX);
    assert_eq!(<i32 as MaybeFrom<Object>>::maybe_from(many), Some(i32::MAX));
    assert!(<Ptr<Namespace>>::maybe_from(many).is_none());
}

#[test]
fn pointers() {
    let a_pointer: u64 = 0xdead_beef;
    let obj = Object::reference(ObjectTag::Cons, a_pointer as usize);
    assert!(RlispNum::maybe_from(obj).is_none());
    assert!(!obj.floatp());
    assert_eq!(
        <Ptr<ConsCell>>::maybe_from(obj).unwrap().index,
        a_pointer
    );
    assert_eq!(<Ptr<ConsCell>>::from_unchecked(obj).index, a_pointer);
    let back: Option<Ptr<ConsCell>> = obj.maybe_into();
    assert_eq!(back.unwrap().index, a_pointer);
    assert_eq!(<Ptr<ConsCell>>::rlisp_type(), RlispType::Cons);
}

#[test]
fn tagging_round_trip() {
    let payloads: [u64; 6] = [1, 2, 0xdead_beef, 0x8000_0000_0000, MAX_PTR - 1, 0x1234_5678_9abc];
    for tag in ALL_TAGS.iter() {
        for p in payloads.iter() {
            let bits = tag.tag(*p);
            assert!(tag.is_of_type(bits));
            assert_eq!(tag.untag(bits), *p);
            for other in ALL_TAGS.iter() {
                if other != tag {
                    assert!(!other.is_of_type(bits));
                }
            }
        }
    }
}

#[test]
fn payload_zero_is_a_double_only_under_cons() {
    let bits = ObjectTag::Cons.tag(0);
    assert_eq!(bits, f64::INFINITY.to_bits());
    assert!(!ObjectTag::Cons.is_of_type(bits));
    for tag in ALL_TAGS.iter() {
        if *tag != ObjectTag::Cons {
            assert!(tag.is_of_type(tag.tag(0)));
            assert_eq!(tag.untag(tag.tag(0)), 0);
        }
    }
}

#[test]
fn doubles_keep_their_bits() {
    let samples: [f64; 9] = [
        0.0,
        -0.0,
        1.0,
        -1.5,
        f64::INFINITY,
        f64::NEG_INFINITY,
        f64::MAX,
        f64::MIN_POSITIVE,
        f64::EPSILON,
    ];
    for f in samples.iter() {
        let obj = Object::from_float_bits(f.to_bits());
        assert!(obj.floatp());
        assert_eq!(obj.what_type(), RlispType::Float);
        assert_eq!(obj.float_bits(), f.to_bits());
        for tag in ALL_TAGS.iter() {
            assert!(!tag.is_of_type(obj.to_bits()));
        }
    }
    let nan = Object::from_float_bits(f64::NAN.to_bits());
    assert!(nan.floatp());
    assert!(nan.nanp());
    assert_eq!(nan.float_bits(), CANONICAL_NAN);
    assert_eq!(Object::the_nan(), f64::NAN.to_bits());
}

#[test]
fn a_signalling_nan_becomes_the_canonical_one() {
    let boxed_looking: u64 = 0x7FF0_0000_0000_0001;
    assert!(f64::from_bits(boxed_looking).is_nan());
    let obj = Object::from_float_bits(boxed_looking);
    assert!(obj.floatp());
    assert_eq!(obj.float_bits(), CANONICAL_NAN);
    let negative_nan: u64 = 0xFFF8_0000_0000_0001;
    let obj = Object::from_float_bits(negative_nan);
    assert!(obj.floatp());
    assert_eq!(obj.float_bits(), negative_nan);
}

#[test]
fn immediates() {
    for n in [0, 1, -1, 42, i32::MAX, i32::MIN].iter() {
        let obj = Object::from_int(*n);
        assert!(obj.integerp());
        assert!(obj.numberp());
        assert!(!obj.boolp());
        assert!(!obj.floatp());
        assert_eq!(obj.int_value(), *n);
        assert_eq!(obj.what_type(), RlispType::Integer);
        assert!(ImmediateTag::Integer.is_of_type(obj.to_bits()));
        assert!(!ImmediateTag::Bool.is_of_type(obj.to_bits()));
    }
    assert_eq!(ImmediateTag::Integer.untag(ImmediateTag::Integer.tag(7)), 7);
    assert_eq!(ImmediateTag::Bool.untag(ImmediateTag::Bool.tag(1)), 1);
    assert!(Object::nil().boolp());
    assert!(Object::t().boolp());
    assert!(Object::nil().nilp());
    assert!(!Object::t().nilp());
    assert!(!Object::from_int(0).nilp());
    assert_eq!(Object::from_bool(true), Object::t());
    assert_eq!(Object::from_bool(false), Object::nil());
    assert!(Object::t().truthy());
    assert!(!Object::nil().truthy());
    assert!(Object::from_int(0).truthy());
    assert_eq!(<bool as MaybeFrom<Object>>::maybe_from(Object::t()), Some(true));
    assert_eq!(<bool as MaybeFrom<Object>>::maybe_from(Object::nil()), Some(false));
    assert_eq!(<bool as MaybeFrom<Object>>::maybe_from(Object::from_int(1)), None);
}

#[test]
fn eq_is_equality_of_bits() {
    assert_ne!(Object::from_int(1), Object::from_float_bits(1.0f64.to_bits()));
    assert_ne!(
        Object::from_float_bits(0.0f64.to_bits()),
        Object::from_float_bits((-0.0f64).to_bits())
    );
    assert_eq!(Object::from_int(5), Object::from_int(5));
}

#[test]
fn what_type_of_references() {
    let expected = [
        (ObjectTag::Cons, RlispType::Cons),
        (ObjectTag::Sym, RlispType::Sym),
        (ObjectTag::String, RlispType::String),
        (ObjectTag::Function, RlispType::Function),
        (ObjectTag::Error, RlispType::Error),
        (ObjectTag::Namespace, RlispType::Namespace),
        (ObjectTag::Place, RlispType::Place),
    ];
    for (tag, typ) in expected.iter() {
        let obj = Object::reference(*tag, 17);
        assert_eq!(obj.what_type(), *typ);
        assert_eq!(obj.index(), 17);
    }
    assert!(Object::reference(ObjectTag::Cons, 3).consp());
    assert!(Object::reference(ObjectTag::Sym, 3).symbolp());
    assert!(Object::reference(ObjectTag::String, 3).stringp());
    assert!(Object::reference(ObjectTag::Function, 3).functionp());
    assert!(Object::reference(ObjectTag::Error, 3).errorp());
    assert!(Object::reference(ObjectTag::Namespace, 3).namespacep());
    assert!(Object::reference(ObjectTag::Place, 3).placep());
    assert!(!Object::reference(ObjectTag::Error, 3).truthy());
}

#[test]
fn check_type_admits_numbers() {
    assert!(RlispType::Number.check_type(Object::from_int(1)));
    assert!(RlispType::Number.check_type(Object::from_float_bits(1.5f64.to_bits())));
    assert!(!RlispType::Number.check_type(Object::nil()));
    assert!(RlispType::Integer.check_type(Object::from_int(1)));
    assert!(!RlispType::Float.check_type(Object::from_int(1)));
    assert!(RlispType::Bool.check_type(Object::nil()));
}

#[test]
fn constants_are_the_doubles_they_name() {
    let expected: [(&str, f64); 22] = [
        ("+pi+", std::f64::consts::PI),
        ("+e+", std::f64::consts::E),
        ("+sqrt2+", std::f64::consts::SQRT_2),
        ("+ln2+", std::f64::consts::LN_2),
        ("+ln10+", std::f64::consts::LN_10),
        ("+log2-e+", std::f64::consts::LOG2_E),
        ("+lge+", std::f64::consts::LOG10_E),
        ("+1/pi+", std::f64::consts::FRAC_1_PI),
        ("+2/pi+", std::f64::consts::FRAC_2_PI),
        ("+pi/2+", std::f64::consts::FRAC_PI_2),
        ("+pi/3+", std::f64::consts::FRAC_PI_3),
        ("+pi/4+", std::f64::consts::FRAC_PI_4),
        ("+pi/6+", std::f64::consts::FRAC_PI_6),
        ("+pi/8+", std::f64::consts::FRAC_PI_8),
        ("+1/sqrt2+", std::f64::consts::FRAC_1_SQRT_2),
        ("+infinity+", f64::INFINITY),
        ("+-infinity+", f64::NEG_INFINITY),
        ("+epsilon+", f64::EPSILON),
        ("+min-num+", f64::MIN),
        ("+max-num+", f64::MAX),
        ("+min-integer+", i32::MIN as f64),
        ("+max-integer+", i32::MAX as f64),
    ];
    let vars = builtin_vars();
    assert_eq!(vars.len(), 23);
    for (name, value) in expected.iter() {
        let found = vars.iter().find(|(n, _)| n == name);
        match found {
            Some((_, IntoObject::Num(bits))) => assert_eq!(*bits, value.to_bits(), "{}", name),
            _ => panic!("{} is missing", name),
        }
    }
    match vars.iter().find(|(n, _)| *n == "+nan+") {
        Some((_, IntoObject::Num(bits))) => assert_eq!(*bits, f64::NAN.to_bits()),
        _ => panic!("+nan+ is missing"),
    }
}

#[test]
fn odd_numbers() {
    assert!(oddp(1));
    assert!(oddp(-3));
    assert!(!oddp(0));
    assert!(!oddp(10));
}

#[test]
fn converting_plain_values() {
    let mut lisp = Lisp::bare();
    let s = lisp.convert_into_object(IntoObject::String("hello"));
    assert!(s.stringp());
    assert_eq!(lisp.heap.string(s).as_bytes(), &b"hello".to_vec());
    assert_eq!(lisp.heap.string(s).len(), 5);
    assert_eq!(lisp.heap.string(s).byte_at(-1), Some(b'o'));
    assert_eq!(lisp.heap.string(s).byte_at(0), Some(b'h'));
    assert_eq!(lisp.heap.string(s).byte_at(5), None);
    assert_eq!(lisp.heap.string(s).byte_at(-6), None);
    assert_eq!(lisp.convert_into_object(IntoObject::Bool(true)), Object::t());
    let pi = lisp.convert_into_object(IntoObject::from_float_bits(std::f64::consts::PI.to_bits()));
    assert_eq!(pi.float_bits(), std::f64::consts::PI.to_bits());
}
