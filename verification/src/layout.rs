//! Naming rule for persisted terminal layouts: one file per workspace,
//! slashes in the workspace name doubled to underscores so the name is a
//! single path component. Reading and writing the files is the
//! application's.

use vstd::prelude::*;
use vstd::string::StringExecFns;
use crate::text::push_char;

verus! {

/// Every slash doubled to underscores, every other character kept.
pub open spec fn safe_name(s: Seq<char>) -> Seq<char>
    decreases s.len(),
{
    if s.len() == 0 {
        Seq::empty()
    } else {
        (if s[0] == '/' {
            seq!['_', '_']
        } else {
            seq![s[0]]
        }) + safe_name(s.skip(1))
    }
}

proof fn lemma_safe_name_push(s: Seq<char>, c: char)
    ensures
        safe_name(s.push(c)) == safe_name(s) + (if c == '/' {
            seq!['_', '_']
        } else {
            seq![c]
        }),
    decreases s.len(),
{
    let piece = if c == '/' {
        seq!['_', '_']
    } else {
        seq![c]
    };
    if s.len() == 0 {
        assert(s.push(c)[0] == c);
        assert(s.push(c).skip(1) =~= Seq::<char>::empty());
        assert(safe_name(Seq::<char>::empty()) == Seq::<char>::empty());
        assert(safe_name(s.push(c)) == piece + Seq::<char>::empty());
        assert(piece + Seq::<char>::empty() =~= piece);
        assert(safe_name(s) + piece =~= piece);
    } else {
        assert(s.push(c).skip(1) =~= s.skip(1).push(c));
        lemma_safe_name_push(s.skip(1), c);
        assert(s.push(c)[0] == s[0]);
        let head = if s[0] == '/' {
            seq!['_', '_']
        } else {
            seq![s[0]]
        };
        assert(head + (safe_name(s.skip(1)) + piece) =~= (head + safe_name(s.skip(1))) + piece);
    }
}

/// The file name a workspace's layout is stored under.
pub fn layout_file_name(workspace_name: &str) -> (r: String)
    ensures
        r@ == safe_name(workspace_name@) + ".json"@,
{
    let cs = crate::text::chars_of(workspace_name);
    let n = cs.len();
    let mut out = String::new();
    let mut i: usize = 0;
    proof {
        assert(safe_name(workspace_name@.take(0)) =~= Seq::<char>::empty());
    }
    while i < n
        invariant
            i <= n,
            n == cs@.len(),
            cs@ == workspace_name@,
            out@ == safe_name(workspace_name@.take(i as int)),
        decreases n - i,
    {
        let c = cs[i];
        if c == '/' {
            push_char(&mut out, '_');
            push_char(&mut out, '_');
        } else {
            push_char(&mut out, c);
        }
        proof {
            lemma_safe_name_push(workspace_name@.take(i as int), workspace_name@[i as int]);
            assert(workspace_name@.take(i as int).push(workspace_name@[i as int])
                =~= workspace_name@.take(i as int + 1));
            if c == '/' {
                assert(safe_name(workspace_name@.take(i as int)) + seq!['_'] + seq!['_']
                    =~= safe_name(workspace_name@.take(i as int)) + seq!['_', '_']);
            }
        }
        i = i + 1;
    }
    proof {
        assert(workspace_name@.take(n as int) =~= workspace_name@);
    }
    out.append(".json");
    out
}

} // verus!
