use vstd::prelude::*;

verus! {

/// A todo as the store hands it out: its row joined with its category's name.
#[derive(Debug, PartialEq, Eq)]
pub struct Todo {
    pub id: i64,
    pub description: String,
    pub done: bool,
    pub category_name: Option<String>,
}

/// A category row.
#[derive(Debug, PartialEq, Eq)]
pub struct Category {
    pub id: i64,
    pub name: String,
}

/// The mathematical value of a [`Todo`].
pub struct TodoView {
    pub id: i64,
    pub description: Seq<char>,
    pub done: bool,
    pub category_name: Option<Seq<char>>,
}

/// The mathematical value of a [`Category`].
pub struct CategoryView {
    pub id: i64,
    pub name: Seq<char>,
}

/// The characters of an optional string.
pub open spec fn opt_str_view(o: Option<String>) -> Option<Seq<char>> {
    match o {
        Some(s) => Some(s@),
        None => None,
    }
}

impl View for Todo {
    type V = TodoView;

    open spec fn view(&self) -> TodoView {
        TodoView {
            id: self.id,
            description: self.description@,
            done: self.done,
            category_name: opt_str_view(self.category_name),
        }
    }
}

impl View for Category {
    type V = CategoryView;

    open spec fn view(&self) -> CategoryView {
        CategoryView { id: self.id, name: self.name@ }
    }
}

/// The decimal digit for `d`, which is below ten.
pub open spec fn digit_char(d: nat) -> char {
    if d == 0 { '0' }
    else if d == 1 { '1' }
    else if d == 2 { '2' }
    else if d == 3 { '3' }
    else if d == 4 { '4' }
    else if d == 5 { '5' }
    else if d == 6 { '6' }
    else if d == 7 { '7' }
    else if d == 8 { '8' }
    else { '9' }
}

/// The decimal digits of `n`, most significant first, without leading zeros.
pub open spec fn decimal_nat(n: nat) -> Seq<char>
    decreases n,
{
    if n < 10 {
        seq![digit_char(n)]
    } else {
        decimal_nat(n / 10).push(digit_char(n % 10))
    }
}

/// `n` in decimal, with a leading minus sign when it is negative.
pub open spec fn decimal(n: int) -> Seq<char> {
    if n < 0 {
        seq!['-'] + decimal_nat((-n) as nat)
    } else {
        decimal_nat(n as nat)
    }
}

/// The line that shows a todo: `- [x] 3: text (category: name)`.
pub open spec fn rendered(t: TodoView) -> Seq<char> {
    seq!['-', ' ', '['] + (if t.done { seq!['x'] } else { seq![' '] }) + seq![']', ' ']
        + decimal(t.id as int) + seq![':', ' '] + t.description + match t.category_name {
        Some(name) => seq![' ', '(', 'c', 'a', 't', 'e', 'g', 'o', 'r', 'y', ':', ' '] + name
            + seq![')'],
        None => Seq::<char>::empty(),
    }
}

fn append_digit(s: &mut String, d: u64)
    requires
        d < 10,
    ensures
        final(s)@ == old(s)@.push(digit_char(d as nat)),
{
    let lit: &str = if d == 0 {
        proof { reveal_strlit("0"); }
        "0"
    } else if d == 1 {
        proof { reveal_strlit("1"); }
        "1"
    } else if d == 2 {
        proof { reveal_strlit("2"); }
        "2"
    } else if d == 3 {
        proof { reveal_strlit("3"); }
        "3"
    } else if d == 4 {
        proof { reveal_strlit("4"); }
        "4"
    } else if d == 5 {
        proof { reveal_strlit("5"); }
        "5"
    } else if d == 6 {
        proof { reveal_strlit("6"); }
        "6"
    } else if d == 7 {
        proof { reveal_strlit("7"); }
        "7"
    } else if d == 8 {
        proof { reveal_strlit("8"); }
        "8"
    } else {
        proof { reveal_strlit("9"); }
        "9"
    };
    assert(lit@ =~= seq![digit_char(d as nat)]);
    s.append(lit);
    assert(final(s)@ =~= old(s)@.push(digit_char(d as nat)));
}

fn append_decimal_nat(s: &mut String, n: u64)
    ensures
        final(s)@ == old(s)@ + decimal_nat(n as nat),
    decreases n,
{
    if n >= 10 {
        append_decimal_nat(s, n / 10);
        append_digit(s, n % 10);
        assert(final(s)@ =~= old(s)@ + decimal_nat(n as nat));
    } else {
        append_digit(s, n);
        assert(final(s)@ =~= old(s)@ + decimal_nat(n as nat));
    }
}

/// Appends `n` in decimal to `s`.
pub fn append_decimal(s: &mut String, n: i64)
    ensures
        final(s)@ == old(s)@ + decimal(n as int),
{
    if n < 0 {
        proof { reveal_strlit("-"); }
        s.append("-");
        let magnitude: u64 = ((-(n + 1)) as u64) + 1;
        append_decimal_nat(s, magnitude);
        assert(final(s)@ =~= old(s)@ + decimal(n as int));
    } else {
        append_decimal_nat(s, n as u64);
    }
}

impl Todo {
    /// The line that shows this todo, e.g. `- [ ] 1: buy milk (category: groceries)`.
    pub fn render(&self) -> (r: String)
        ensures
            r@ == rendered(self@),
    {
        proof {
            reveal_strlit("- [x] ");
            reveal_strlit("- [ ] ");
            reveal_strlit(": ");
            reveal_strlit(" (category: ");
            reveal_strlit(")");
        }
        let mut s = if self.done {
            String::from_str("- [x] ")
        } else {
            String::from_str("- [ ] ")
        };
        append_decimal(&mut s, self.id);
        s.append(": ");
        s.append(self.description.as_str());
        match &self.category_name {
            Some(name) => {
                s.append(" (category: ");
                s.append(name.as_str());
                s.append(")");
            },
            None => {},
        }
        assert(s@ =~= rendered(self@));
        s
    }
}

} // verus!
