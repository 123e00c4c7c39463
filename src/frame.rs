use vstd::prelude::*;
use vstd::string::StringExecFns;

verus! {

/// `text` followed by each argument, every one after a single space.
pub open spec fn with_args(text: Seq<char>, args: Seq<Seq<char>>) -> Seq<char>
    decreases args.len(),
{
    if args.len() == 0 {
        text
    } else {
        with_args(text, args.drop_last()) + seq![' '] + args.last()
    }
}

/// The texts of a list of strings.
pub open spec fn texts(args: Seq<String>) -> Seq<Seq<char>> {
    args.map_values(|a: String| a@)
}

/// The wire frame of a command: the command and its arguments joined by single
/// spaces, and one newline at the end.
pub open spec fn frame_text(command: Seq<char>, args: Seq<Seq<char>>) -> Seq<char> {
    with_args(command, args) + seq!['\n']
}

/// Builds the frame of `command` with `args`.
pub fn encode_frame(command: &String, args: &Vec<String>) -> (r: String)
    ensures
        r@ == frame_text(command@, texts(args@)),
{
    let mut frame = command.clone();
    let n = args.len();
    let mut i: usize = 0;
    proof {
        reveal_strlit(" ");
        reveal_strlit("\n");
        assert(texts(args@).take(0) =~= Seq::<Seq<char>>::empty());
    }
    while i < n
        invariant
            n == args@.len(),
            i <= n,
            frame@ == with_args(command@, texts(args@).take(i as int)),
        decreases n - i,
    {
        frame.append(" ");
        frame.append(args[i].as_str());
        proof {
            reveal_strlit(" ");
            let t = texts(args@).take(i + 1);
            assert(t.drop_last() =~= texts(args@).take(i as int));
            assert(t.last() == args@[i as int]@);
        }
        i = i + 1;
    }
    frame.append("\n");
    proof {
        reveal_strlit("\n");
    }
    assert(texts(args@).take(n as int) =~= texts(args@));
    frame
}

} // verus!
