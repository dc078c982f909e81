use hogtrace::constant_pool::{Constant, ConstantPool};
use hogtrace::value::Value;

#[test]
fn test_constant_pool_basic() {
    let mut pool = ConstantPool::new();

    let idx1 = pool.add(Constant::Int(42));
    let idx2 = pool.add(Constant::String("hello".to_string()));
    let idx3 = pool.add(Constant::Identifier("args".to_string()));

    assert_eq!(idx1, 0);
    assert_eq!(idx2, 1);
    assert_eq!(idx3, 2);
    assert_eq!(pool.len(), 3);

    let v1 = pool.get_value(idx1).unwrap();
    assert!(matches!(v1, Value::Int(42)));

    let s = pool.get_string(idx3).unwrap();
    assert_eq!(s, "args");
}

#[test]
fn test_constant_as_value() {
    let c = Constant::Int(42);
    let v = c.as_value().unwrap();
    assert!(matches!(v, Value::Int(42)));

    let c = Constant::Identifier("test".to_string());
    assert!(c.as_value().is_err());
}

#[test]
fn test_constant_type_checks() {
    let id = Constant::Identifier("test".to_string());
    let field = Constant::FieldName("name".to_string());
    let func = Constant::FunctionName("timestamp".to_string());

    assert!(id.is_identifier());
    assert!(!id.is_field_name());
    assert!(!id.is_function_name());

    assert!(field.is_field_name());
    assert!(func.is_function_name());
}
