use vstd::prelude::*;

verus! {

/// The separator written after each snippet.
pub open spec fn newline() -> Seq<char> {
    seq!['\n']
}

/// The names of the two snippets every program pulls in first, in their fixed
/// relative order: the assertion library, then the bootstrap code.
pub open spec fn mandatory_names() -> Seq<Seq<char>> {
    seq!["assert"@, "sta"@]
}

/// The text of a program prelude: each part in order, a newline after each.
pub open spec fn glued(parts: Seq<Seq<char>>) -> Seq<char>
    decreases parts.len(),
{
    if parts.len() == 0 {
        Seq::empty()
    } else {
        glued(parts.drop_last()) + parts.last() + newline()
    }
}

/// The full ordered request a test file stands for: the mandatory pair first,
/// then the declared names in their declared order.
pub fn full_include_list(declared: &Vec<String>) -> (r: Vec<String>)
    ensures
        r.deep_view() == mandatory_names() + declared.deep_view(),
{
    let mut r: Vec<String> = Vec::new();
    r.push("assert".to_owned());
    r.push("sta".to_owned());
    proof {
        assert(r.deep_view() =~= mandatory_names() + declared.deep_view().take(0));
    }
    let mut i: usize = 0;
    while i < declared.len()
        invariant
            i <= declared.len(),
            r.deep_view() == mandatory_names() + declared.deep_view().take(i as int),
        decreases declared.len() - i,
    {
        let ghost prev = r.deep_view();
        r.push(declared[i].clone());
        proof {
            assert(r.deep_view() =~= prev.push(declared.deep_view()[i as int]));
            assert(r.deep_view() =~= mandatory_names() + declared.deep_view().take(i + 1));
        }
        i += 1;
    }
    proof {
        assert(declared.deep_view().take(declared.len() as int) =~= declared.deep_view());
    }
    r
}

/// Join resolved snippet contents into one prelude text, a newline after each
/// snippet, in the exact order given.
pub fn concat_contents(parts: &Vec<String>) -> (r: String)
    ensures
        r@ == glued(parts.deep_view()),
{
    let mut r = String::new();
    let mut i: usize = 0;
    while i < parts.len()
        invariant
            i <= parts.len(),
            r@ == glued(parts.deep_view().take(i as int)),
        decreases parts.len() - i,
    {
        r.append(parts[i].as_str());
        r.append("\n");
        proof {
            reveal_strlit("\n");
            assert("\n"@ =~= newline());
            assert(parts.deep_view().take(i + 1).drop_last() =~= parts.deep_view().take(i as int));
            assert(parts.deep_view().take(i + 1).last() == parts.deep_view()[i as int]);
        }
        i += 1;
    }
    proof {
        assert(parts.deep_view().take(parts.len() as int) =~= parts.deep_view());
    }
    r
}

/// Append the test file's own text after the assembled prelude: the body
/// always comes last, unchanged.
pub fn generate_final_file_to_test(contents: String, body: &str) -> (r: String)
    ensures
        r@ == contents@ + body@,
{
    contents.concat(body)
}

/// Assembly order is deterministic: with mandatory snippets `a` and `b`,
/// declared snippets `c` and `d`, and body `t`, the assembled program is
/// exactly `a`, `b`, `c`, `d` — a newline after each — then `t`, in that
/// order.
pub proof fn lemma_assembly_order(
    a: Seq<char>,
    b: Seq<char>,
    c: Seq<char>,
    d: Seq<char>,
    t: Seq<char>,
)
    ensures
        glued(seq![a, b, c, d]) + t == a + newline() + b + newline() + c + newline() + d
            + newline() + t,
{
    assert(seq![a, b, c, d].drop_last() =~= seq![a, b, c]);
    assert(seq![a, b, c].drop_last() =~= seq![a, b]);
    assert(seq![a, b].drop_last() =~= seq![a]);
    assert(seq![a].drop_last() =~= Seq::<Seq<char>>::empty());
    assert(glued(Seq::<Seq<char>>::empty()) =~= Seq::<char>::empty());
    assert(glued(seq![a]) =~= a + newline());
    assert(glued(seq![a, b]) =~= a + newline() + b + newline());
    assert(glued(seq![a, b, c]) =~= a + newline() + b + newline() + c + newline());
    assert(glued(seq![a, b, c, d]) =~= a + newline() + b + newline() + c + newline() + d
        + newline());
    assert(glued(seq![a, b, c, d]) + t =~= a + newline() + b + newline() + c + newline() + d
        + newline() + t);
}

/// Every assembled prelude of two or more snippets starts with the first two,
/// in order, a newline after each.
pub proof fn lemma_glued_prefix(s: Seq<Seq<char>>)
    requires
        2 <= s.len(),
    ensures
        exists|rest: Seq<char>| glued(s) == s[0] + newline() + s[1] + newline() + rest,
    decreases s.len(),
{
    if s.len() == 2 {
        assert(s.drop_last() =~= seq![s[0]]);
        assert(seq![s[0]].drop_last() =~= Seq::<Seq<char>>::empty());
        let rest = Seq::<char>::empty();
        assert(glued(Seq::<Seq<char>>::empty()) =~= Seq::<char>::empty());
        assert(glued(seq![s[0]]) =~= s[0] + newline());
        assert(glued(s) =~= s[0] + newline() + s[1] + newline() + rest);
    } else {
        lemma_glued_prefix(s.drop_last());
        let rest0 = choose|r: Seq<char>|
            glued(s.drop_last()) == s.drop_last()[0] + newline() + s.drop_last()[1] + newline()
                + r;
        assert(s.drop_last()[0] == s[0]);
        assert(s.drop_last()[1] == s[1]);
        let rest = rest0 + s.last() + newline();
        assert(glued(s) =~= s[0] + newline() + s[1] + newline() + rest);
    }
}

} // verus!
