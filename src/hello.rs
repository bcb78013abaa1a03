use vstd::prelude::*;

verus! {

pub open spec fn hello_text(name: Seq<char>) -> Seq<char> {
    "<h1>Hello <strong>"@ + name + "</strong></h1>"@
}

pub open spec fn hello2_text(name: Seq<char>) -> Seq<char> {
    "Hello2 <strong>"@ + name + "</strong>"@
}

/// The greeting page for `name`, or for "world" where no name is given.
pub fn hello_html(name: Option<&str>) -> (r: String)
    ensures
        r@ == hello_text(
            match name {
                Some(n) => n@,
                None => "world"@,
            },
        ),
{
    let who = match name {
        Some(n) => n,
        None => "world",
    };
    let mut r = String::from_str("<h1>Hello <strong>");
    r.append(who);
    r.append("</strong></h1>");
    r
}

/// The second greeting page, for `name`.
pub fn hello2_html(name: &str) -> (r: String)
    ensures
        r@ == hello2_text(name@),
{
    let mut r = String::from_str("Hello2 <strong>");
    r.append(name);
    r.append("</strong>");
    r
}

} // verus!
