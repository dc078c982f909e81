use std::collections::HashMap;

use hogtrace::dispatcher::{capture_payload, Dispatcher};
use hogtrace::error::ErrorKind;
use hogtrace::executor::fire_probe;
use hogtrace::parser::parse;
use hogtrace::program::Program;
use hogtrace::value::Value;

struct HostDispatcher {
    variables: HashMap<String, Value>,
    store: HashMap<String, Value>,
    captures: Vec<HashMap<String, Value>>,
}

fn clone_value(v: &Value) -> Value {
    match v {
        Value::Bool(b) => Value::Bool(*b),
        Value::Int(i) => Value::Int(*i),
        Value::Float(f) => Value::Float(*f),
        Value::String(s) => Value::String(s.clone()),
        Value::NoneValue => Value::NoneValue,
        Value::Object(h) => Value::Object(*h),
    }
}

impl HostDispatcher {
    fn new() -> Self {
        HostDispatcher {
            variables: HashMap::new(),
            store: HashMap::new(),
            captures: Vec::new(),
        }
    }

    fn with_args(args: Vec<Value>) -> Self {
        let mut d = Self::new();
        for (i, a) in args.into_iter().enumerate() {
            d.variables.insert(format!("arg{}", i), a);
        }
        d
    }
}

impl Dispatcher for HostDispatcher {
    fn load_variable(&mut self, name: &str) -> Result<Value, String> {
        if let Some(v) = self.variables.get(name) {
            return Ok(clone_value(v));
        }
        if name == "req" || name == "request" {
            return Ok(Value::Object(1));
        }
        if let Some(rest) = name.strip_prefix("req.") {
            return Ok(self
                .store
                .get(rest)
                .map(clone_value)
                .unwrap_or(Value::NoneValue));
        }
        Err(format!("Unknown variable: {}", name))
    }

    fn store_variable(&mut self, name: &str, value: Value) -> Result<(), String> {
        let key = name
            .strip_prefix("req.")
            .or_else(|| name.strip_prefix("request."))
            .unwrap_or(name);
        self.store.insert(key.to_string(), value);
        Ok(())
    }

    fn get_attribute(&mut self, obj: &Value, attr: &str) -> Result<Value, String> {
        if matches!(obj, Value::Object(1)) {
            return Ok(self
                .store
                .get(attr)
                .map(clone_value)
                .unwrap_or(Value::NoneValue));
        }
        Ok(Value::NoneValue)
    }

    fn set_attribute(&mut self, obj: &Value, attr: &str, value: Value) -> Result<(), String> {
        if matches!(obj, Value::Object(1)) {
            self.store.insert(attr.to_string(), value);
        }
        Ok(())
    }

    fn get_item(&mut self, _obj: &Value, _key: &Value) -> Result<Value, String> {
        Ok(Value::NoneValue)
    }

    fn call_function(&mut self, name: &str, args: Vec<Value>) -> Result<Value, String> {
        match name {
            "capture" | "send" => {
                let mut data = HashMap::new();
                let is_named = args.len() % 2 == 0
                    && args.iter().step_by(2).all(|v| matches!(v, Value::String(_)));
                if is_named {
                    for i in (0..args.len()).step_by(2) {
                        if let Value::String(key) = &args[i] {
                            data.insert(key.clone(), clone_value(&args[i + 1]));
                        }
                    }
                } else {
                    for (i, arg) in args.into_iter().enumerate() {
                        data.insert(format!("arg{}", i), arg);
                    }
                }
                self.captures.push(data);
                Ok(Value::NoneValue)
            }
            "timestamp" => Ok(Value::Float((12345.0f64).to_bits())),
            "len" => Ok(Value::Int(args.len() as i64)),
            _ => Err(format!("Unknown function: {}", name)),
        }
    }
}

fn fire(program: &Program, dispatcher: &mut HostDispatcher) -> Result<bool, String> {
    fire_probe(&program.constant_pool, &program.probes[0], dispatcher)
}

#[test]
fn test_e2e_authenticate_entry_predicate_true() {
    let source = "fn:myapp.users.authenticate:entry\n/ arg0 > 100 && arg1 != None /\n{ $req.user_id = arg0; capture(user_id=$req.user_id, email=arg1); }";
    let program = parse(source).unwrap();
    let mut d = HostDispatcher::with_args(vec![
        Value::Int(150),
        Value::String("u@x.com".to_string()),
    ]);
    let ran = fire(&program, &mut d).unwrap();
    assert!(ran);
    assert_eq!(d.captures.len(), 1);
    let event = &d.captures[0];
    assert!(matches!(event.get("user_id"), Some(Value::Int(150))));
    match event.get("email") {
        Some(Value::String(s)) => assert_eq!(s, "u@x.com"),
        other => panic!("Expected email string, got {:?}", other),
    }
}

#[test]
fn test_e2e_authenticate_entry_predicate_false() {
    let source = "fn:myapp.users.authenticate:entry\n/ arg0 > 100 && arg1 != None /\n{ $req.user_id = arg0; capture(user_id=$req.user_id, email=arg1); }";
    let program = parse(source).unwrap();
    let mut d = HostDispatcher::with_args(vec![
        Value::Int(50),
        Value::String("u@x.com".to_string()),
    ]);
    let ran = fire(&program, &mut d).unwrap();
    assert!(!ran);
    assert_eq!(d.captures.len(), 0);
}

#[test]
fn test_e2e_positional_capture() {
    let source = "fn:t:entry { capture(42); }";
    let program = parse(source).unwrap();
    let mut d = HostDispatcher::new();
    fire(&program, &mut d).unwrap();
    assert_eq!(d.captures.len(), 1);
    assert!(matches!(d.captures[0].get("arg0"), Some(Value::Int(42))));
}

#[test]
fn test_e2e_named_capture() {
    let source = "fn:t:entry { capture(user_id=1, event=\"login\"); }";
    let program = parse(source).unwrap();
    let mut d = HostDispatcher::new();
    fire(&program, &mut d).unwrap();
    assert_eq!(d.captures.len(), 1);
    let event = &d.captures[0];
    assert_eq!(event.len(), 2);
    assert!(matches!(event.get("user_id"), Some(Value::Int(1))));
    match event.get("event") {
        Some(Value::String(s)) => assert_eq!(s, "login"),
        other => panic!("Expected login, got {:?}", other),
    }
}

#[test]
fn test_e2e_modulo_predicate() {
    let source = "fn:t:entry / arg0 % 2 == 0 / { capture(arg0); }";
    let program = parse(source).unwrap();

    let mut d = HostDispatcher::with_args(vec![Value::Int(4)]);
    assert!(fire(&program, &mut d).unwrap());
    assert_eq!(d.captures.len(), 1);
    assert!(matches!(d.captures[0].get("arg0"), Some(Value::Int(4))));

    let mut d = HostDispatcher::with_args(vec![Value::Int(5)]);
    assert!(!fire(&program, &mut d).unwrap());
    assert_eq!(d.captures.len(), 0);
}

#[test]
fn test_e2e_division_by_zero_in_predicate() {
    // a division inside the predicate must be parenthesized: a bare '/' at
    // bracket depth zero ends the predicate instead of dividing
    let source = "fn:t:entry / (10/0) > 1 / { }";
    let program = parse(source).unwrap();
    let mut d = HostDispatcher::new();
    let result = fire(&program, &mut d);
    assert!(result.is_err());
    assert!(result.unwrap_err().contains("Division by zero"));
    assert_eq!(d.captures.len(), 0);
}

#[test]
fn test_e2e_probe_spec_typo_suggestion() {
    let source = "fn:myapp.test:entr { capture(args); }";
    let err = parse(source).unwrap_err();
    assert_eq!(err.kind, ErrorKind::InvalidProbeSpec);
    assert!(err.suggestion.unwrap().contains("entry"));
}

#[test]
fn test_e2e_arithmetic_expression() {
    // (42 + 8) * 2 - 10 / 2 yields Int(95)
    let source = "fn:t:entry / (42 + 8) * 2 - (10 / 2) == 95 / { capture(1); }";
    let program = parse(source).unwrap();
    let mut d = HostDispatcher::new();
    assert!(fire(&program, &mut d).unwrap());
    assert_eq!(d.captures.len(), 1);
}

#[test]
fn test_e2e_empty_capture() {
    let source = "fn:t:entry { capture(); }";
    let program = parse(source).unwrap();
    let mut d = HostDispatcher::new();
    fire(&program, &mut d).unwrap();
    assert_eq!(d.captures.len(), 1);
    assert!(d.captures[0].is_empty());
}

#[test]
fn test_e2e_empty_program() {
    let program = parse("").unwrap();
    assert_eq!(program.probes.len(), 0);
    assert_eq!(program.version, 1);
}

#[test]
fn test_e2e_compiled_program_survives_the_wire() {
    let source = "fn:myapp.users.create:entry\n/ arg0 > 100 /\n{\n    $req.user_id = arg0;\n    capture(user_id=$req.user_id);\n}";
    let program = parse(source).unwrap();
    let bytes = program.to_proto_bytes().unwrap();
    let decoded = Program::from_proto_bytes(&bytes).unwrap();

    assert_eq!(decoded.version, program.version);
    assert_eq!(decoded.sampling, program.sampling);
    assert_eq!(decoded.probes.len(), program.probes.len());
    assert_eq!(decoded.probes[0].id, program.probes[0].id);
    assert_eq!(decoded.probes[0].predicate, program.probes[0].predicate);
    assert_eq!(decoded.probes[0].body, program.probes[0].body);

    let mut d = HostDispatcher::with_args(vec![Value::Int(150)]);
    assert!(fire(&decoded, &mut d).unwrap());
    assert_eq!(d.captures.len(), 1);
}

#[test]
fn test_capture_payload_conventions() {
    // named form: even arity, string keys at even indices
    let named = vec![
        Value::String("user_id".to_string()),
        Value::Int(1),
        Value::String("event".to_string()),
        Value::String("login".to_string()),
    ];
    let pairs = capture_payload(named);
    assert_eq!(pairs.len(), 2);
    assert_eq!(pairs[0].0, "user_id");
    assert!(matches!(pairs[0].1, Value::Int(1)));
    assert_eq!(pairs[1].0, "event");
    assert!(matches!(&pairs[1].1, Value::String(s) if s == "login"));

    // positional form: arg0, arg1, ... keys in order
    let positional = vec![Value::Int(7), Value::Bool(true), Value::NoneValue];
    let pairs = capture_payload(positional);
    assert_eq!(pairs.len(), 3);
    assert_eq!(pairs[0].0, "arg0");
    assert_eq!(pairs[1].0, "arg1");
    assert_eq!(pairs[2].0, "arg2");

    // odd arity with string keys is positional, not named
    let odd = vec![Value::String("k".to_string()), Value::Int(1), Value::Int(2)];
    let pairs = capture_payload(odd);
    assert_eq!(pairs[0].0, "arg0");
}

#[test]
fn test_fire_probe_rejects_non_boolean_predicate() {
    // a predicate that leaves an integer is a protocol error
    let source = "fn:t:entry / 1 + 1 / { capture(1); }";
    let program = parse(source).unwrap();
    let mut d = HostDispatcher::new();
    let result = fire(&program, &mut d);
    assert!(result.is_err());
    assert_eq!(d.captures.len(), 0);
}

#[test]
fn test_nan_result_is_falsy_not_equal() {
    // an overflowing literal is infinity; inf - inf is NaN, which compares
    // unequal to everything and is falsy
    let source = "fn:t:entry / (1e999 - 1e999) == 0.0 / { capture(1); }";
    let program = parse(source).unwrap();
    let mut d = HostDispatcher::new();
    assert!(!fire(&program, &mut d).unwrap());
    assert_eq!(d.captures.len(), 0);
}

#[test]
fn test_lexer_float_literal_reaches_runtime() {
    // a float literal written in source must arrive with its exact value
    let source = "fn:t:entry / 2.5 + 0.25 == 2.75 / { capture(1); }";
    let program = parse(source).unwrap();
    let mut d = HostDispatcher::new();
    assert!(fire(&program, &mut d).unwrap());
}
