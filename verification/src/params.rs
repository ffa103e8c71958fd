//! Go parameter lists with consecutive parameters of one type grouped:
//! `a int, b int, c string` is written `a, b int, c string`.

use vstd::prelude::*;

verus! {

/// What parameter `i` adds to the list: its name, its type if the next
/// parameter has another type (or there is none), and a separator if a
/// parameter follows.
pub open spec fn param_piece(params: Seq<(String, String)>, i: int) -> Seq<char> {
    let last = i == params.len() - 1;
    params[i].0@ + (if last || params[i + 1].1@ != params[i].1@ {
        " "@ + params[i].1@
    } else {
        ""@
    }) + (if last {
        ""@
    } else {
        ", "@
    })
}

/// What the first `n` parameters add to the list.
pub open spec fn pieces(params: Seq<(String, String)>, n: int) -> Seq<char>
    decreases n,
{
    if n <= 0 {
        Seq::empty()
    } else {
        pieces(params, n - 1) + param_piece(params, n - 1)
    }
}

/// The parameter list of `params`, grouped by type.
pub fn group_params(params: &[(String, String)]) -> (list: String)
    ensures
        list@ == pieces(params@, params@.len() as int),
{
    let mut list = String::new();
    let mut i: usize = 0;
    while i < params.len()
        invariant
            i <= params@.len(),
            list@ == pieces(params@, i as int),
        decreases params@.len() - i,
    {
        proof {
            reveal_strlit(" ");
            reveal_strlit(", ");
            reveal_strlit("");
        }
        let ghost before = list@;
        let ghost p = params@;
        let ghost k = i as int;
        list.append(params[i].0.as_str());
        let ghost with_name = list@;
        assert(with_name == before + p[k].0@);
        let last = i + 1 == params.len();
        let ends_run = last || params[i + 1].1 != params[i].1;
        assert(ends_run == (k == p.len() - 1 || p[k + 1].1@ != p[k].1@));
        if ends_run {
            list.append(" ");
            list.append(params[i].1.as_str());
        }
        let ghost with_type = list@;
        assert(with_type =~= with_name + (if ends_run {
            " "@ + p[k].1@
        } else {
            ""@
        }));
        if !last {
            list.append(", ");
        }
        proof {
            assert(list@ =~= with_type + (if last {
                ""@
            } else {
                ", "@
            }));
            let piece = param_piece(p, k);
            assert(piece == p[k].0@ + (if ends_run {
                " "@ + p[k].1@
            } else {
                ""@
            }) + (if last {
                ""@
            } else {
                ", "@
            }));
            assert(list@ =~= before + piece);
            assert(pieces(p, k + 1) == pieces(p, k) + piece);
        }
        i = i + 1;
    }
    list
}

/// Grouping writes one parameter as `name type`; two of one type as
/// `a, b type`; two of different types as `a ta, b tb`; and no parameters
/// as nothing.
pub proof fn law_parameters_grouped_as_go_writes_them(a: (String, String), b: (String, String))
    ensures
        pieces(Seq::<(String, String)>::empty(), 0) == Seq::<char>::empty(),
        pieces(seq![a], 1) == a.0@ + seq![' '] + a.1@,
        a.1@ == b.1@ ==> pieces(seq![a, b], 2) == a.0@ + seq![',', ' '] + b.0@ + seq![' '] + b.1@,
        a.1@ != b.1@ ==> pieces(seq![a, b], 2) == a.0@ + seq![' '] + a.1@ + seq![',', ' '] + b.0@ + seq![' '] + b.1@,
{
    reveal_strlit(" ");
    reveal_strlit(", ");
    reveal_strlit("");
    assert(" "@ =~= seq![' ']);
    assert(", "@ =~= seq![',', ' ']);
    assert(""@ =~= Seq::<char>::empty());
    assert(pieces(seq![a], 1) == pieces(seq![a], 0) + param_piece(seq![a], 0));
    assert(pieces(seq![a, b], 2) == pieces(seq![a, b], 1) + param_piece(seq![a, b], 1));
    assert(pieces(seq![a, b], 1) == pieces(seq![a, b], 0) + param_piece(seq![a, b], 0));
    assert(pieces(seq![a], 1) =~= a.0@ + seq![' '] + a.1@);
    if a.1@ == b.1@ {
        assert(pieces(seq![a, b], 2) =~= a.0@ + seq![',', ' '] + b.0@ + seq![' '] + b.1@);
    } else {
        assert(pieces(seq![a, b], 2) =~= a.0@ + seq![' '] + a.1@ + seq![',', ' '] + b.0@ + seq![' '] + b.1@);
    }
}

} // verus!
