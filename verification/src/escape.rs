use vstd::prelude::*;
use vstd::string::StringExecFns;

verus! {

broadcast use vstd::string::group_string_axioms;

/// What `inflector`'s `to_snake_case` returns for a text.
pub uninterp spec fn snake_case(s: Seq<char>) -> Seq<char>;

/// Calls `inflector::cases::snakecase::to_snake_case`. Claimed: the result is the
/// snake-case form of `s`, which depends on `s` alone (named by [`snake_case`]).
#[verifier::external_body]
fn to_snake_case(s: &str) -> (r: String)
    ensures
        r@ == snake_case(s@),
{
    inflector::cases::snakecase::to_snake_case(s)
}

/// The prefix that makes a name a raw identifier.
pub open spec fn raw_prefix() -> Seq<char> {
    seq!['r', '#']
}

/// The escaped form of a text used in a file path.
pub open spec fn escaped_path(s: Seq<char>) -> Seq<char> {
    snake_case(s)
}

/// The escaped form of a text used as the name of a test.
pub open spec fn escaped_test_name(s: Seq<char>) -> Seq<char> {
    raw_prefix() + snake_case(s)
}

/// The escaped form of a text used as the name of a module.
pub open spec fn escaped_module_name(s: Seq<char>) -> Seq<char> {
    raw_prefix() + snake_case(s)
}

fn raw_identifier(s: &str) -> (r: String)
    ensures
        r@ == raw_prefix() + snake_case(s@),
{
    let prefix = "r#".to_string();
    let snake = to_snake_case(s);
    let r = prefix.concat(snake.as_str());
    proof {
        reveal_strlit("r#");
        assert("r#"@ =~= raw_prefix());
    }
    r
}

pub trait Escaper {
    /// The text that is escaped.
    spec fn text(&self) -> Seq<char>;

    /// Escapes a string intended to be used in a file path
    fn escape_path(&self) -> (r: String)
        ensures
            r@ == escaped_path(self.text()),
    ;

    /// Escapes a string intended to be used as the name of a test
    fn escape_test_name(&self) -> (r: String)
        ensures
            r@ == escaped_test_name(self.text()),
    ;

    /// Escapes a string intended to be used as the name of a module
    fn escape_module_name(&self) -> (r: String)
        ensures
            r@ == escaped_module_name(self.text()),
    ;
}

impl<'a> Escaper for &'a str {
    open spec fn text(&self) -> Seq<char> {
        (*self)@
    }

    fn escape_path(&self) -> (r: String) {
        to_snake_case(*self)
    }

    fn escape_test_name(&self) -> (r: String) {
        raw_identifier(*self)
    }

    fn escape_module_name(&self) -> (r: String) {
        raw_identifier(*self)
    }
}

impl Escaper for String {
    open spec fn text(&self) -> Seq<char> {
        self@
    }

    fn escape_path(&self) -> (r: String) {
        self.as_str().escape_path()
    }

    fn escape_test_name(&self) -> (r: String) {
        self.as_str().escape_test_name()
    }

    fn escape_module_name(&self) -> (r: String) {
        self.as_str().escape_module_name()
    }
}

/// A test name and a module name are the escaped path behind the raw-identifier prefix:
/// the three escapes of one text agree.
pub proof fn law_escapes_agree(s: Seq<char>)
    ensures
        escaped_test_name(s) == raw_prefix() + escaped_path(s),
        escaped_module_name(s) == escaped_test_name(s),
        escaped_test_name(s).len() == escaped_path(s).len() + 2,
{
}

} // verus!
