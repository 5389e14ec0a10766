use gs_lang::lang::exception_handler::GscriptExceptionHandler;
use gs_lang::lang::native_object::{marshal_value_to_native, ByteArrayInstance, NativeInstanceMethodWrapper, ToNative};
use gs_lang::lang::types::array_object::ArrayObject;
use gs_lang::lang::types::array_type::{ArrayGet, ArrayType};
use gs_lang::lang::types::native_object_type::NativeObjectType;
use gs_lang::lang::types::number::NumberType;
use gs_lang::lang::types::object_type::{ObjectGet, ObjectType};
use gs_lang::lang::types::string_type::{StringGet, StringType};
use gs_lang::lang::value::{GValue, Operation, ValueKind};
use gs_lang::lang::value_converter::{GscriptValueConverter, NativeInput, NativeScalar};

fn num(v: i32) -> GValue {
    GValue::new(v, ValueKind::Number)
}

fn perform(op: Operation, a: i32, b: GValue) -> GValue {
    NumberType.perform(op, num(a), Some(b))
}

#[test]
fn number_arithmetic() {
    assert_eq!(perform(Operation::Add, 2, num(3)), num(5));
    assert_eq!(perform(Operation::Sub, 2, num(3)), num(-1));
    assert_eq!(perform(Operation::Mult, -4, num(3)), num(-12));
}

#[test]
fn number_division_rounds_towards_zero() {
    assert_eq!(perform(Operation::Div, 7, num(2)), num(3));
    assert_eq!(perform(Operation::Div, -7, num(2)), num(-3));
    assert_eq!(perform(Operation::Div, 7, num(-2)), num(-3));
    assert_eq!(perform(Operation::Mod, 7, num(-2)), num(1));
    assert_eq!(perform(Operation::Mod, -7, num(2)), num(-1));
    assert_eq!(perform(Operation::Div, i32::MIN, num(2)), num(i32::MIN / 2));
}

#[test]
fn number_division_by_zero_gives_zero() {
    assert_eq!(perform(Operation::Div, 7, num(0)), num(0));
    assert_eq!(perform(Operation::Mod, 7, num(0)), num(0));
}

#[test]
fn quotient_and_remainder_rebuild_the_dividend() {
    for (a, b) in [(17, 5), (-17, 5), (17, -5), (-17, -5), (i32::MIN, 7)] {
        let q = perform(Operation::Div, a, num(b)).value;
        let r = perform(Operation::Mod, a, num(b)).value;
        assert_eq!(q as i64 * b as i64 + r as i64, a as i64);
    }
}

#[test]
fn number_plus_string_joins_the_digits_and_the_text() {
    assert_eq!(NumberType.concatenate(num(40), "2 apples"), "402 apples");
    assert_eq!(NumberType.concatenate(num(-7), ""), "-7");
    assert_eq!(NumberType.concatenate(num(i32::MIN), "!"), "-2147483648!");
}

#[test]
fn number_arithmetic_wraps_on_overflow() {
    assert_eq!(perform(Operation::Add, i32::MAX, num(1)), num(i32::MIN));
    assert_eq!(perform(Operation::Sub, i32::MIN, num(1)), num(i32::MAX));
    assert_eq!(perform(Operation::Mult, 65536, num(65536)), num(0));
    assert_eq!(perform(Operation::Mult, i32::MAX, num(2)), num(-2));
    assert_eq!(perform(Operation::Div, i32::MIN, num(1)), num(i32::MIN));
}

#[test]
fn number_comparisons_give_booleans() {
    assert_eq!(perform(Operation::Eql, 3, num(3)), GValue::boolean(true));
    assert_eq!(perform(Operation::Gt, 3, num(4)), GValue::boolean(false));
    assert_eq!(perform(Operation::Lt, 3, num(4)), GValue::boolean(true));
    assert_eq!(NumberType.perform(Operation::Not, num(0), None), GValue::boolean(true));
    assert_eq!(NumberType.perform(Operation::Not, num(5), None), GValue::boolean(false));
    // a < b is b > a
    assert_eq!(perform(Operation::Lt, 3, num(4)), perform(Operation::Gt, 4, num(3)));
}

#[test]
fn number_supports_arithmetic_only() {
    assert!(NumberType.supports_operation(Operation::Mod));
    assert!(!NumberType.supports_operation(Operation::Get));
    assert!(!NumberType.supports_operation(Operation::New));
    assert_eq!(NumberType.name(), "Number");
    assert!(NumberType.is_instance(ValueKind::Number));
    assert!(!NumberType.is_instance(ValueKind::String));
}

#[test]
fn string_concatenation_renders_the_operand() {
    let t = StringType;
    assert_eq!(t.concatenate("ab", num(12), ""), "ab12");
    assert_eq!(t.concatenate("ab", num(-5), ""), "ab-5");
    assert_eq!(t.concatenate("ab", GValue::boolean(true), ""), "abtrue");
    assert_eq!(t.concatenate("ab", GValue::boolean(false), ""), "abfalse");
    assert_eq!(t.concatenate("ab", GValue::new(3, ValueKind::String), "cd"), "abcd");
    assert_eq!(t.concatenate("ab", GValue::undefined(), "zz"), "ab");
}

#[test]
fn string_fields() {
    let t = StringType;
    let field = GValue::new(0, ValueKind::String);
    assert_eq!(t.get_action(field, "length"), StringGet::Length);
    assert_eq!(t.get_action(field, "lowercase"), StringGet::Lowercase);
    assert_eq!(t.get_action(field, "bytes"), StringGet::Bytes);
    assert_eq!(t.get_action(field, "ref"), StringGet::Ref);
    assert_eq!(t.get_action(field, "size"), StringGet::Undefined);
    assert_eq!(t.get_action(num(2), ""), StringGet::CharAt(2));
    assert_eq!(t.get_action(GValue::boolean(true), "length"), StringGet::Undefined);
    assert_eq!(t.length("héllo"), num(6));
    assert_eq!(t.lowercase_text("AbC"), "abc");
    assert_eq!(t.reference(GValue::new(9, ValueKind::String)), num(9));
    assert_eq!(t.equals(GValue::new(9, ValueKind::String), GValue::new(9, ValueKind::String)), GValue::boolean(true));
    assert!(t.supports_operation(Operation::Get));
    assert!(!t.supports_operation(Operation::Sub));
}

#[test]
fn object_fields() {
    let t = ObjectType;
    let field = GValue::new(0, ValueKind::String);
    assert_eq!(t.get_action(field, "fields"), ObjectGet::Fields);
    assert_eq!(t.get_action(field, "ref"), ObjectGet::Ref);
    assert_eq!(t.get_action(field, "name"), ObjectGet::Field("name".to_string()));
    assert_eq!(t.get_action(num(1), "name"), ObjectGet::Undefined);
    assert_eq!(t.field_or_undefined(None), GValue::undefined());
    assert_eq!(t.field_or_undefined(Some(num(4))), num(4));
    assert!(t.supports_operation(Operation::Eql));
    assert!(!t.supports_operation(Operation::Add));
}

#[test]
fn array_fields_and_append_key() {
    let t = ArrayType;
    assert_eq!(t.append_key(t.current_length(None)), "0");
    assert_eq!(t.append_key(t.current_length(Some(num(12)))), "12");
    assert_eq!(t.get_action(GValue::new(0, ValueKind::String), "length"), ArrayGet::Length);
    assert_eq!(t.get_action(GValue::new(0, ValueKind::String), "first"), ArrayGet::Undefined);
    assert_eq!(t.get_action(num(5), ""), ArrayGet::Element("5".to_string()));
    assert_eq!(t.length_or_zero(None), num(0));
    assert!(t.supports_operation(Operation::New));
    assert!(!t.supports_operation(Operation::Eql));
}

#[test]
fn native_object_fields() {
    let t = NativeObjectType;
    assert_eq!(t.field_name(GValue::new(0, ValueKind::String), "read"), Some("read".to_string()));
    assert_eq!(t.field_name(num(0), "read"), None);
    assert!(t.supports_operation(Operation::Get));
    assert!(!t.supports_operation(Operation::Add));
}

#[test]
fn array_object_reads_back_what_was_stored() {
    let mut a = ArrayObject::new();
    a.set_value_by_index(3, num(30));
    assert_eq!(a.get_length(), 4);
    assert_eq!(a.get_value_by_index(3), num(30));
    assert_eq!(a.get_value_by_index(1), GValue::undefined());
    assert_eq!(a.get_value_by_index(-1), GValue::undefined());
    assert_eq!(a.get_value_by_index(4), GValue::undefined());
    a.set_value_by_index(1, num(10));
    assert_eq!(a.get_length(), 4);
    assert_eq!(a.get_value_by_index(1), num(10));
    assert_eq!(a.get_value_by_index(3), num(30));
}

#[test]
fn value_conversion() {
    let c = GscriptValueConverter::new();
    assert_eq!(c.convert_from_gvm(GValue::undefined()), NativeScalar::Unit);
    assert_eq!(c.convert_from_gvm(GValue::new(4, ValueKind::String)), NativeScalar::Text);
    assert_eq!(c.convert_from_gvm(num(4)), NativeScalar::Int(4));
    assert_eq!(c.convert_from_gvm(GValue::new(2, ValueKind::Boolean)), NativeScalar::Bool(true));
    assert_eq!(c.convert_from_gvm(GValue::new(8, ValueKind::Object)), NativeScalar::Int(8));
    assert_eq!(c.convert_from_gvm_to(GValue::new(8, ValueKind::Object), "bool"), NativeScalar::Bool(true));
    assert_eq!(c.convert_from_gvm_to(GValue::undefined(), "i32"), NativeScalar::Int(0));
    assert_eq!(c.convert_from_gvm_to(num(3), "String"), NativeScalar::Text);
    assert_eq!(c.convert_to_gvm(NativeInput::Bool(true)), GValue::boolean(true));
    assert_eq!(c.convert_to_gvm(NativeInput::Text(5)), GValue::new(5, ValueKind::String));
    assert_eq!(c.convert_to_gvm(NativeInput::Other), GValue::undefined());
}

#[test]
fn exception_objects() {
    let h = GscriptExceptionHandler::new();
    let fields = h.convert_message(7, 12, 3);
    let names: Vec<&str> = fields.iter().map(|f| f.name.as_str()).collect();
    assert_eq!(names, vec!["message", "line", "location"]);
    assert_eq!(fields[0].value, GValue::new(7, ValueKind::String));
    assert_eq!(fields[1].value, num(12));
    assert_eq!(fields[2].value, GValue::new(3, ValueKind::String));
    let thrown = h.convert_value(num(99), 1, 2);
    assert_eq!(thrown[0].name, "exception");
    assert_eq!(thrown[0].value, num(99));
    let message = h.convert_value(GValue::new(4, ValueKind::String), 1, 2);
    assert_eq!(message[0].name, "message");
}

#[test]
fn native_method_wrapper() {
    let w = NativeInstanceMethodWrapper::new(5, "read".to_string(), 2);
    assert_eq!(w.obj_ref(), 5);
    assert_eq!(w.method_name(), "read");
    assert_eq!(w.argument_count(), 2);
    assert_eq!(w.native_order(vec![1, 2, 3]), vec![3, 2, 1]);
    let b = ByteArrayInstance::new(vec![1u8, 2, 3]);
    assert_eq!(b.get_bytes(), &[1u8, 2, 3]);
}

#[test]
fn char_at_reads_the_character_at_a_byte_index() {
    let t = StringType;
    assert_eq!(t.char_at("héllo", 0), Some("h".to_string()));
    assert_eq!(t.char_at("héllo", 1), Some("é".to_string()));
    assert_eq!(t.char_at("héllo", 3), Some("l".to_string()));
    assert_eq!(t.char_at("héllo", 6), None);
    assert_eq!(t.char_at("héllo", -1), None);
    assert_eq!(t.char_at("", 0), None);
}

#[test]
fn array_object_keys_name_slots_by_index() {
    let mut a = ArrayObject::new();
    a.set_value("2", num(7));
    a.set_value("+0", num(5));
    a.set_value("x", num(9));
    assert_eq!(a.get_length(), 3);
    assert_eq!(a.get_value("length"), Some(num(3)));
    assert_eq!(a.get_value("2"), Some(num(7)));
    assert_eq!(a.get_value("0"), Some(num(5)));
    assert_eq!(a.get_value("1"), None);
    assert_eq!(a.get_value("x"), None);
    assert!(a.has_value("length"));
    assert!(a.has_value("2"));
    assert!(!a.has_value("1"));
    assert!(!a.has_value("-0"));
    assert!(a.get_value("-0").is_some());
    assert_eq!(a.get_keys(), vec!["0".to_string(), "2".to_string()]);
    assert_eq!(a.get_values(), vec![num(5), num(7)]);
}

#[test]
fn values_go_to_native_methods_by_type() {
    assert_eq!(marshal_value_to_native(GValue::new(4, ValueKind::String)), ToNative::Text(4));
    assert_eq!(marshal_value_to_native(num(-3)), ToNative::Number(-3));
    assert_eq!(marshal_value_to_native(GValue::new(2, ValueKind::Boolean)), ToNative::Boolean(true));
    assert_eq!(marshal_value_to_native(GValue::new(0, ValueKind::Boolean)), ToNative::Boolean(false));
    assert_eq!(marshal_value_to_native(GValue::undefined()), ToNative::Undefined);
    assert_eq!(marshal_value_to_native(GValue::new(9, ValueKind::NativeObject)), ToNative::Object(9));
    assert_eq!(marshal_value_to_native(GValue::new(6, ValueKind::Object)), ToNative::Number(6));
}
