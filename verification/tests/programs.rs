use rlox::interpreter::{Action, Arithmetic, Event, Interpreter, Printed, Request};
use rlox::{run_source_code, Program};

fn compute(request: &Request) -> u64 {
    match request {
        Request::Literal(digits) => digits.parse::<f64>().unwrap().to_bits(),
        Request::Arithmetic {
            operator,
            left,
            right,
        } => {
            let a = f64::from_bits(*left);
            let b = f64::from_bits(*right);
            let result = match operator {
                Arithmetic::Add => a + b,
                Arithmetic::Subtract => a - b,
                Arithmetic::Multiply => a * b,
                Arithmetic::Divide => a / b,
            };
            result.to_bits()
        }
    }
}

fn run_and_capture_output(source_code: &str) -> String {
    let Program { stmts, resolver } = run_source_code(source_code).unwrap();
    let mut interpreter = Interpreter::new(resolver);
    interpreter.interpret(&stmts);
    let mut out = String::new();
    let mut event = Event::Resume;
    loop {
        let action = interpreter.step(event);
        event = Event::Resume;
        match action {
            Action::Continue => {}
            Action::Print(Printed::Text(text)) => {
                out.push_str(&text);
                out.push('\n');
            }
            Action::Print(Printed::Number(bits)) => {
                out.push_str(&format!("{}", f64::from_bits(bits)));
                out.push('\n');
            }
            Action::Number(request) => event = Event::Number(compute(&request)),
            Action::Finished => break,
            Action::Failed(error) => panic!("runtime error: {:?}", error),
            Action::Stuck => panic!("the machine is stuck"),
        }
    }
    out.trim().to_string()
}

#[test]
fn if_statements_work() {
    let source_code = r#"
    fun boolT(t) {
      if(t) {
        print "true";
      } else {
        print "false";
      }
    }
    boolT(true);
    boolT(false);
  "#;
    let out = run_and_capture_output(source_code);
    assert_eq!(out, "true\nfalse");
}

#[test]
fn logic_table() {
    let source_code = r#"
    print true and true;
    print true and false;
    print false and true;
    print false and false;

    print true or true;
    print true or false;
    print false or true;
    print false or false; 
  "#;
    let out = run_and_capture_output(source_code);
    assert_eq!(out, "true\nfalse\nfalse\nfalse\ntrue\ntrue\ntrue\nfalse");
}

#[test]
fn while_loops_works() {
    let source_code = r#"
    var i = 0;
    while (i < 2) {
      print i;
      i = i + 1;
    } 
  "#;
    let out = run_and_capture_output(source_code);
    assert_eq!(out, "0\n1");
}

#[test]
fn for_loops_works() {
    let source_code = r#"
    for(var i = 0; i < 2; i = i + 1){
      print i;
    } 
  "#;
    let out = run_and_capture_output(source_code);
    assert_eq!(out, "0\n1");
}

#[test]
fn basic_arithmetic_precedence() {
    let source_code = r#"
    var a = 1 + 2 * (3 - 3) - 1;
    print a;
  "#;
    let out = run_and_capture_output(source_code);
    assert_eq!(out, "0");
}

#[test]
fn calling_functions_work() {
    let source_code = r#"
    fun a() {
      print "Hello, World!";
    } 

    a();
  "#;
    let out = run_and_capture_output(source_code);
    assert_eq!(out, "Hello, World!");
}

#[test]
fn functions_return_values() {
    let source_code = r#"
    fun a() {
      return "Hello, World!";
    }

    print a();
  "#;
    let out = run_and_capture_output(source_code);
    assert_eq!(out, "Hello, World!");
}

#[test]
fn closures_work() {
    let source_code = r#"
    fun make_adder(a, b) {
      fun add() {
        return a + b;
      } 
      return add;
    }
    var adder = make_adder(1, 1);
    print adder();
  "#;
    let out = run_and_capture_output(source_code);
    assert_eq!(out, "2");
}

#[test]
fn closures_bind_properly() {
    let source_code = r#"
    var a = "global";
    {
      fun showA() {
        print a;
      }
      showA();
      var a = "local";
      showA();
      print a;
    }
  "#;
    let out = run_and_capture_output(source_code);
    assert_eq!(out, "global\nglobal\nlocal");
}

#[test]
fn print_works() {
    let source_code = r#"print "Hello, World!";"#;
    let out = run_and_capture_output(source_code);
    assert_eq!(out, "Hello, World!");
}

#[test]
fn var_decl_works() {
    let source_code = "var a = 1; print a;";
    let out = run_and_capture_output(source_code);
    assert_eq!(out, "1")
}

#[test]
fn var_assignment_works() {
    let source_code = r#"
    var a = 1;
    print a;
    a = 2;
    print a; 
  "#;
    let out = run_and_capture_output(source_code);
    assert_eq!(out, "1\n2");
}

#[test]
fn scoping_works() {
    let source_code = r#"
    var a = 1;
    {
      var a = 2;
      {
        var a = 3;
        print a;
      }
      print a;
    } 
    print a;
  "#;
    let out = run_and_capture_output(source_code);
    assert_eq!(out, "3\n2\n1");
}

#[test]
#[should_panic]
fn errors_on_overshadowing_variable_in_same_scope() {
    let source_code = r#"
    var a = 1;
    print a;
    var a = 2;
    print a; 
  "#;
    run_and_capture_output(source_code);
}

#[test]
#[should_panic]
fn errors_on_referencing_nonexistent_variable() {
    let source_code = "print a;";
    run_and_capture_output(source_code);
}

#[test]
#[should_panic]
fn errors_on_unused_variable() {
    let source_code = "var a;";
    run_and_capture_output(source_code);
}

#[test]
#[should_panic]
fn errors_on_unassigned_variable() {
    let source_code = "var a; print a;";
    run_and_capture_output(source_code);
}
