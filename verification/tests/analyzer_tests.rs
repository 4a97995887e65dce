use edit_counter::{analyze_file_diff, EditKind};

    #[test]
    fn test_analyze_file_diff_add_file() {
        let code = "
pub struct UserAuth;

impl UserAuth {
    pub fn login() {}
    pub fn logout() {}
}
";
        let events = analyze_file_diff("src/auth.rs", None, Some(code));
        assert_eq!(events.len(), 4);
        assert_eq!(events[0].kind, EditKind::FileAdded);
        assert_eq!(events[1].kind, EditKind::ClassAdded);
        assert_eq!(events[1].symbol.as_deref(), Some("UserAuth"));
        assert_eq!(events[2].kind, EditKind::FunctionAdded);
        assert_eq!(events[2].symbol.as_deref(), Some("login"));
        assert_eq!(events[3].kind, EditKind::FunctionAdded);
        assert_eq!(events[3].symbol.as_deref(), Some("logout"));
    }

    #[test]
    fn test_analyze_file_diff_modify_function() {
        let old_code = "
pub fn calculate_tax(amount: f64) -> f64 {
    amount * 0.1
}
";
        let new_code = "
pub fn calculate_tax(amount: f64) -> f64 {
    amount * 0.15
}
";
        let events = analyze_file_diff("src/billing.rs", Some(old_code), Some(new_code));
        assert_eq!(events.len(), 2);
        assert_eq!(events[0].kind, EditKind::FileModified);
        assert_eq!(events[1].kind, EditKind::FunctionModified);
        assert_eq!(events[1].symbol.as_deref(), Some("calculate_tax"));
    }

    #[test]
    fn test_analyze_file_diff_delete_class_and_methods() {
        let old_code = "
pub struct LegacySession;

impl LegacySession {
    pub fn init() {}
    pub fn validate() {}
    pub fn close() {}
}
";
        let new_code = "
// Legacy session removed
";
        let events = analyze_file_diff("src/legacy.rs", Some(old_code), Some(new_code));
        assert_eq!(events.len(), 5);
        assert_eq!(events[0].kind, EditKind::FileModified);
        assert_eq!(events[1].kind, EditKind::ClassDeleted);
        assert_eq!(events[1].symbol.as_deref(), Some("LegacySession"));
        assert_eq!(events[2].kind, EditKind::FunctionDeleted);
        assert_eq!(events[2].symbol.as_deref(), Some("init"));
        assert_eq!(events[3].kind, EditKind::FunctionDeleted);
        assert_eq!(events[3].symbol.as_deref(), Some("validate"));
        assert_eq!(events[4].kind, EditKind::FunctionDeleted);
        assert_eq!(events[4].symbol.as_deref(), Some("close"));
    }

    #[test]
    fn test_analyze_file_diff_delete_file() {
        let old_code = "
pub struct OldWidget;

pub fn draw_widget() {}
";
        let events = analyze_file_diff("src/old_widget.rs", Some(old_code), None);
        assert_eq!(events.len(), 3);
        assert_eq!(events[0].kind, EditKind::FileDeleted);
        assert_eq!(events[1].kind, EditKind::ClassDeleted);
        assert_eq!(events[1].symbol.as_deref(), Some("OldWidget"));
        assert_eq!(events[2].kind, EditKind::FunctionDeleted);
        assert_eq!(events[2].symbol.as_deref(), Some("draw_widget"));
    }

    #[test]
    fn test_unchanged_file_returns_no_events() {
        let code = "pub fn foo() {}";
        let events = analyze_file_diff("src/lib.rs", Some(code), Some(code));
        assert!(events.is_empty());
    }

    #[test]
    fn test_analyze_typescript_file_diff() {
        let old_ts = "
export class Router {
    navigate(to: string) {
        console.log(to);
    }
}
";
        let new_ts = "
export class Router {
    navigate(to: string) {
        window.location.href = to;
    }
    back() {
        window.history.back();
    }
}
";
        let events = analyze_file_diff("src/router.ts", Some(old_ts), Some(new_ts));
        assert_eq!(events.len(), 3);
        assert_eq!(events[0].kind, EditKind::FileModified);
        assert_eq!(events[1].kind, EditKind::FunctionModified);
        assert_eq!(events[1].symbol.as_deref(), Some("navigate"));
        assert_eq!(events[2].kind, EditKind::FunctionAdded);
        assert_eq!(events[2].symbol.as_deref(), Some("back"));
    }

    #[test]
    fn test_analyze_python_file_diff() {
        let old_py = "
class Worker:
    def execute(self):
        print(\"old\")
";
        let new_py = "
class Worker:
    def execute(self):
        print(\"new\")
";
        let events = analyze_file_diff("app/worker.py", Some(old_py), Some(new_py));
        assert_eq!(events.len(), 2);
        assert_eq!(events[0].kind, EditKind::FileModified);
        assert_eq!(events[1].kind, EditKind::FunctionModified);
        assert_eq!(events[1].symbol.as_deref(), Some("execute"));
    }

    #[test]
    fn test_analyze_csharp_file_diff() {
        let cs_code = "
public class PaymentGateway
{
    public void Charge() {}
}
";
        let events =
            analyze_file_diff("Services/PaymentGateway.cs", None, Some(cs_code));
        assert_eq!(events.len(), 3);
        assert_eq!(events[0].kind, EditKind::FileAdded);
        assert_eq!(events[1].kind, EditKind::ClassAdded);
        assert_eq!(events[1].symbol.as_deref(), Some("PaymentGateway"));
        assert_eq!(events[2].kind, EditKind::FunctionAdded);
        assert_eq!(events[2].symbol.as_deref(), Some("Charge"));
    }

    #[test]
    fn test_analyze_go_file_diff() {
        let old_go = "
package server

type Server struct {
    port int
}

func (s *Server) Start() {
    println(\"start\")
}

func Helper() {}
";
        let new_go = "
package server

type Server struct {
    port int
    host string
}

func (s *Server) Start() {
    println(\"start v2\")
}

type Router struct {}
";
        let events = analyze_file_diff("pkg/server.go", Some(old_go), Some(new_go));
        assert_eq!(events.len(), 5);
        assert_eq!(events[0].kind, EditKind::FileModified);
        assert_eq!(events[1].kind, EditKind::ClassModified);
        assert_eq!(events[1].symbol.as_deref(), Some("Server"));
        assert_eq!(events[2].kind, EditKind::FunctionModified);
        assert_eq!(events[2].symbol.as_deref(), Some("Start"));
        assert_eq!(events[3].kind, EditKind::ClassAdded);
        assert_eq!(events[3].symbol.as_deref(), Some("Router"));
        assert_eq!(events[4].kind, EditKind::FunctionDeleted);
        assert_eq!(events[4].symbol.as_deref(), Some("Helper"));
    }

    #[test]
    fn test_analyze_java_file_diff() {
        let old_java = "
public class PaymentProcessor {
    private int timeout = 10;

    public void process() {
        System.out.println(\"processing\");
    }
}
";
        let new_java = "
public class PaymentProcessor {
    private int timeout = 30;

    public void process() {
        System.out.println(\"processing v2\");
    }
}
";
        let events = analyze_file_diff(
            "src/PaymentProcessor.java",
            Some(old_java),
            Some(new_java),
        );
        assert_eq!(events.len(), 3);
        assert_eq!(events[0].kind, EditKind::FileModified);
        assert_eq!(events[1].kind, EditKind::ClassModified);
        assert_eq!(events[1].symbol.as_deref(), Some("PaymentProcessor"));
        assert_eq!(events[2].kind, EditKind::FunctionModified);
        assert_eq!(events[2].symbol.as_deref(), Some("process"));
    }

    #[test]
    fn test_analyze_cpp_file_diff() {
        let old_cpp = "
class Engine {
    int horsepower;
public:
    void start() {
        init();
    }
};
";
        let new_cpp = "
class Engine {
    int horsepower;
    int torque;
public:
    void start() {
        init_v2();
    }
};
";
        let events = analyze_file_diff("src/engine.cpp", Some(old_cpp), Some(new_cpp));
        assert_eq!(events.len(), 3);
        assert_eq!(events[0].kind, EditKind::FileModified);
        assert_eq!(events[1].kind, EditKind::ClassModified);
        assert_eq!(events[1].symbol.as_deref(), Some("Engine"));
        assert_eq!(events[2].kind, EditKind::FunctionModified);
        assert_eq!(events[2].symbol.as_deref(), Some("start"));
    }

    #[test]
    fn test_analyze_ruby_file_diff() {
        let old_ruby = "
class PaymentGateway
  def charge(amount)
    puts \"charge #{amount}\"
  end
end
";
        let new_ruby = "
class PaymentGateway
  def charge(amount)
    puts \"charge v2 #{amount}\"
  end

  def refund(amount)
    puts \"refund #{amount}\"
  end
end
";
        let events = analyze_file_diff(
            "lib/payment_gateway.rb",
            Some(old_ruby),
            Some(new_ruby),
        );
        assert_eq!(events.len(), 3);
        assert_eq!(events[0].kind, EditKind::FileModified);
        assert_eq!(events[1].kind, EditKind::FunctionModified);
        assert_eq!(events[1].symbol.as_deref(), Some("charge"));
        assert_eq!(events[2].kind, EditKind::FunctionAdded);
        assert_eq!(events[2].symbol.as_deref(), Some("refund"));
    }

    #[test]
    fn test_analyze_php_file_diff() {
        let old_php = "<?php
class AuthService {
    public function login() {
        return true;
    }
}
";
        let new_php = "<?php
class AuthService {
    public function login() {
        return false;
    }
}

function verify_token() {
    return true;
}
";
        let events = analyze_file_diff(
            "src/AuthService.php",
            Some(old_php),
            Some(new_php),
        );
        assert_eq!(events.len(), 3);
        assert_eq!(events[0].kind, EditKind::FileModified);
        assert_eq!(events[1].kind, EditKind::FunctionModified);
        assert_eq!(events[1].symbol.as_deref(), Some("login"));
        assert_eq!(events[2].kind, EditKind::FunctionAdded);
        assert_eq!(events[2].symbol.as_deref(), Some("verify_token"));
    }

    #[test]
    fn test_analyze_swift_file_diff() {
        let old_swift = "
struct Configuration {
    var timeout: Int
}

class NetworkClient {
    func connect() {
        print(\"connecting\")
    }
}
";
        let new_swift = "
struct Configuration {
    var timeout: Int
    var retries: Int
}

class NetworkClient {
    func connect() {
        print(\"connecting v2\")
    }
}

actor ConnectionPool {}
";
        let events = analyze_file_diff(
            "Sources/Client.swift",
            Some(old_swift),
            Some(new_swift),
        );
        assert_eq!(events.len(), 4);
        assert_eq!(events[0].kind, EditKind::FileModified);
        assert_eq!(events[1].kind, EditKind::ClassModified);
        assert_eq!(events[1].symbol.as_deref(), Some("Configuration"));
        assert_eq!(events[2].kind, EditKind::FunctionModified);
        assert_eq!(events[2].symbol.as_deref(), Some("connect"));
        assert_eq!(events[3].kind, EditKind::ClassAdded);
        assert_eq!(events[3].symbol.as_deref(), Some("ConnectionPool"));
    }
