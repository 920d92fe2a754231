use vstd::prelude::*;
use vstd::utf8::encode_utf8;
use crate::text::{contains_text, occurs_in};

verus! {

/// The three sections of a C compilation unit under construction.
#[derive(Debug)]
pub struct IR {
    pub headers: String,
    pub forward_decls: String,
    pub functions: String,
}

/// The system includes that every unit starts with.
pub open spec fn prelude_text() -> Seq<char> {
    "#include <stdio.h>\n#include <stdlib.h>\n#include <stdint.h>\n#include <stdbool.h>\n#include <string.h>\n#include <time.h>\n"@
}

/// A section followed by a newline, or nothing when it is empty.
pub open spec fn section(s: Seq<char>) -> Seq<char> {
    if s.len() == 0 {
        Seq::empty()
    } else {
        s + "\n"@
    }
}

/// The whole unit: includes, headers, forward declarations, then function bodies.
pub open spec fn unit_text(headers: Seq<char>, decls: Seq<char>, functions: Seq<char>) -> Seq<char> {
    prelude_text() + section(headers) + section(decls) + functions
}

/// Signature-before-body: in the finished unit every character of the
/// forward declarations stands before every character of the function bodies.
pub proof fn lemma_signatures_before_bodies(
    headers: Seq<char>,
    decls: Seq<char>,
    functions: Seq<char>,
    i: int,
    j: int,
)
    requires
        0 <= i < decls.len(),
        0 <= j < functions.len(),
    ensures
        ({
            let out = unit_text(headers, decls, functions);
            let di = prelude_text().len() + section(headers).len() + i;
            let fj = prelude_text().len() + section(headers).len() + section(decls).len() + j;
            &&& di < fj
            &&& out[di] == decls[i]
            &&& out[fj] == functions[j]
        }),
{
}

impl IR {
    pub fn new() -> (r: Self)
        ensures
            r.headers@.len() == 0,
            r.forward_decls@.len() == 0,
            r.functions@.len() == 0,
    {
        IR { headers: String::new(), forward_decls: String::new(), functions: String::new() }
    }

    /// Joins the sections in their fixed order.
    pub fn finalize(self) -> (r: String)
        ensures
            r@ == unit_text(self.headers@, self.forward_decls@, self.functions@),
    {
        let mut output = String::new();
        output.append("#include <stdio.h>\n");
        output.append("#include <stdlib.h>\n");
        output.append("#include <stdint.h>\n");
        output.append("#include <stdbool.h>\n");
        output.append("#include <string.h>\n");
        output.append("#include <time.h>");
        output.append("\n");
        proof {
            reveal_strlit("#include <stdio.h>\n");
            reveal_strlit("#include <stdlib.h>\n");
            reveal_strlit("#include <stdint.h>\n");
            reveal_strlit("#include <stdbool.h>\n");
            reveal_strlit("#include <string.h>\n");
            reveal_strlit("#include <time.h>");
            reveal_strlit("\n");
            reveal_strlit("#include <stdio.h>\n#include <stdlib.h>\n#include <stdint.h>\n#include <stdbool.h>\n#include <string.h>\n#include <time.h>\n");
            assert(output@ =~= prelude_text());
        }
        if self.headers.as_str().unicode_len() > 0 {
            output.append(self.headers.as_str());
            output.append("\n");
        }
        if self.forward_decls.as_str().unicode_len() > 0 {
            output.append(self.forward_decls.as_str());
            output.append("\n");
        }
        output.append(self.functions.as_str());
        proof {
            assert(output@ =~= unit_text(self.headers@, self.forward_decls@, self.functions@));
        }
        output
    }

    pub fn add_forward_decl(&mut self, decl: String)
        ensures
            final(self).forward_decls@ == old(self).forward_decls@ + decl@ + "\n"@,
            final(self).headers == old(self).headers,
            final(self).functions == old(self).functions,
    {
        self.forward_decls.append(decl.as_str());
        self.forward_decls.append("\n");
    }

    pub fn add_function(&mut self, func: String)
        ensures
            final(self).functions@ == old(self).functions@ + func@ + "\n\n"@,
            final(self).headers == old(self).headers,
            final(self).forward_decls == old(self).forward_decls,
    {
        self.functions.append(func.as_str());
        self.functions.append("\n\n");
    }

    /// Adds a runtime helper unless its name already occurs among the bodies.
    #[allow(non_snake_case)]
    pub fn add_RuntimeFunction(&mut self, func_name: &str, func_def: String)
        ensures
            occurs_in(encode_utf8(func_name@), encode_utf8(old(self).functions@)) ==> *final(self)
                == *old(self),
            !occurs_in(encode_utf8(func_name@), encode_utf8(old(self).functions@))
                ==> final(self).functions@ == old(self).functions@ + func_def@ + "\n\n"@,
            final(self).headers == old(self).headers,
            final(self).forward_decls == old(self).forward_decls,
    {
        if !contains_text(self.functions.as_str(), func_name) {
            self.functions.append(func_def.as_str());
            self.functions.append("\n\n");
        }
    }
}

} // verus!
