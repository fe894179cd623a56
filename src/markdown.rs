use vstd::prelude::*;

verus! {

/// A link to an article on some instance, written `[[Title@example.com]]`.
pub struct ArticleLink {
    pub title: String,
    pub domain: String,
}

/// A formula written between `$$` marks; shown as a block where the opening
/// mark is followed by a space or a line break.
pub struct MathEquation {
    pub equation: String,
    pub display_mode: bool,
}

/// The first `k >= from` where `c` stands at `k` and at `k + 1`.
pub open spec fn find_double(s: Seq<char>, c: char, from: int) -> Option<int>
    decreases s.len() - from,
{
    if from < 0 || from + 1 >= s.len() {
        None
    } else if s[from] == c && s[from + 1] == c {
        Some(from)
    } else {
        find_double(s, c, from + 1)
    }
}

/// The first `k >= from` where `c` stands.
pub open spec fn find_char(s: Seq<char>, c: char, from: int) -> Option<int>
    decreases s.len() - from,
{
    if from < 0 || from >= s.len() {
        None
    } else if s[from] == c {
        Some(from)
    } else {
        find_char(s, c, from + 1)
    }
}

/// `s` opens with the character `c` twice.
pub open spec fn opens_with_double(s: Seq<char>, c: char) -> bool {
    s.len() >= 2 && s[0] == c && s[1] == c
}

/// What scanning `s` for an article link gives: the title, the domain and
/// the number of characters taken.
pub open spec fn article_link_spec(s: Seq<char>) -> Option<(Seq<char>, Seq<char>, int)> {
    if !opens_with_double(s, '[') {
        None
    } else {
        match find_double(s, ']', 0) {
            None => None,
            Some(k) => {
                let content = s.subrange(2, k);
                match find_char(content, '@', 0) {
                    None => None,
                    Some(a) => Some(
                        (content.subrange(0, a), content.subrange(a + 1, content.len() as int), k + 2),
                    ),
                }
            },
        }
    }
}

/// What scanning `s` for a formula gives: the formula, whether it is shown
/// as a block, and the number of characters taken.
pub open spec fn math_equation_spec(s: Seq<char>) -> Option<(Seq<char>, bool, int)> {
    if !opens_with_double(s, '$') {
        None
    } else {
        match find_double(s, '$', 1) {
            None => None,
            Some(k) => if k < 2 {
                None
            } else {
                Some((s.subrange(2, k), s.len() > 2 && (s[2] == '\n' || s[2] == ' '), k + 2))
            },
        }
    }
}

fn find_double_exec(s: &str, n: usize, c: char, from: usize) -> (r: Option<usize>)
    requires
        n == s@.len(),
        from <= n,
    ensures
        match r {
            None => find_double(s@, c, from as int) is None,
            Some(k) => find_double(s@, c, from as int) == Some(k as int) && k + 1 < n,
        },
{
    let mut k: usize = from;
    while k < n && k + 1 < n
        invariant
            n == s@.len(),
            from <= k <= n,
            find_double(s@, c, k as int) == find_double(s@, c, from as int),
        decreases n - k,
    {
        if s.get_char(k) == c && s.get_char(k + 1) == c {
            return Some(k);
        }
        k += 1;
    }
    None
}

fn find_char_exec(s: &str, n: usize, c: char) -> (r: Option<usize>)
    requires
        n == s@.len(),
    ensures
        match r {
            None => find_char(s@, c, 0) is None,
            Some(k) => find_char(s@, c, 0) == Some(k as int) && k < n,
        },
{
    let mut k: usize = 0;
    while k < n
        invariant
            n == s@.len(),
            k <= n,
            find_char(s@, c, k as int) == find_char(s@, c, 0),
        decreases n - k,
    {
        if s.get_char(k) == c {
            return Some(k);
        }
        k += 1;
    }
    None
}

proof fn lemma_find_double_bounds(s: Seq<char>, c: char, from: int)
    requires
        0 <= from,
    ensures
        find_double(s, c, from) matches Some(k) ==> from <= k && k + 1 < s.len() && s[k] == c && s[k + 1] == c,
    decreases s.len() - from,
{
    if from + 1 < s.len() && !(s[from] == c && s[from + 1] == c) {
        lemma_find_double_bounds(s, c, from + 1);
    }
}

impl ArticleLink {
    /// Reads an article link at the start of `input`: `[[`, a title, `@`,
    /// a domain, `]]`. Returns the link and the number of characters taken.
    pub fn scan(input: &str) -> (r: Option<(ArticleLink, usize)>)
        ensures
            match r {
                None => article_link_spec(input@) is None,
                Some((l, n)) => article_link_spec(input@) == Some((l.title@, l.domain@, n as int)),
            },
    {
        let n = input.unicode_len();
        if n < 2 || input.get_char(0) != '[' || input.get_char(1) != '[' {
            return None;
        }
        let k = match find_double_exec(input, n, ']', 0) {
            None => {
                return None;
            },
            Some(k) => k,
        };
        proof {
            lemma_find_double_bounds(input@, ']', 0);
        }
        if k < 2 {
            assert(input@[0] == '[');
            assert(input@[1] == '[');
            return None;
        }
        let content = input.substring_char(2, k);
        let m = content.unicode_len();
        let a = match find_char_exec(content, m, '@') {
            None => {
                return None;
            },
            Some(a) => a,
        };
        let title = String::from_str(content.substring_char(0, a));
        let domain = String::from_str(content.substring_char(a + 1, m));
        Some((ArticleLink { title, domain }, k + 2))
    }

    /// The address that the link points to.
    pub fn href(&self) -> (r: String)
        ensures
            r@ == "/article/"@ + self.title@ + "@"@ + self.domain@,
    {
        let mut r = String::from_str("/article/");
        r.append(self.title.as_str());
        r.append("@");
        r.append(self.domain.as_str());
        r
    }
}

impl MathEquation {
    /// Reads a formula at the start of `input`: `$$`, the formula, `$$`.
    /// Returns it and the number of characters taken.
    pub fn scan(input: &str) -> (r: Option<(MathEquation, usize)>)
        ensures
            match r {
                None => math_equation_spec(input@) is None,
                Some((e, n)) => math_equation_spec(input@) == Some((e.equation@, e.display_mode, n as int)),
            },
    {
        let n = input.unicode_len();
        if n < 2 || input.get_char(0) != '$' || input.get_char(1) != '$' {
            return None;
        }
        let display_mode = n > 2 && (input.get_char(2) == '\n' || input.get_char(2) == ' ');
        let k = match find_double_exec(input, n, '$', 1) {
            None => {
                return None;
            },
            Some(k) => k,
        };
        proof {
            lemma_find_double_bounds(input@, '$', 1);
        }
        if k < 2 {
            return None;
        }
        let equation = String::from_str(input.substring_char(2, k));
        Some((MathEquation { equation, display_mode }, k + 2))
    }
}

} // verus!
