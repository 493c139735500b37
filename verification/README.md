# deezns

A per-user DNS policy daemon. Every lookup is judged by ordered CEL rules over
the name that is asked for and the process that asks, with blocklists behind
`blocked_by("list")`. The first rule that matches decides; the default verdict
applies when none does.

`src/` is the policy library, verified with Verus:

| Module      | What it decides                                                       |
| ----------- | --------------------------------------------------------------------- |
| `blocklist` | what a hosts, domains-only or AdBlock list blocks                     |
| `cel`       | the boundary to the CEL interpreter                                   |
| `plain`     | how plain expressions are written and what they mean                  |
| `policy`    | configuration, canonical names, loading and evaluating a policy       |
| `session`   | the answers of the policy socket                                      |
| `nscd`      | the nscd protocol, and what becomes of each request                   |
| `dns`       | DNS messages, and what becomes of each query                          |
| `nss`       | what the NSS module tells glibc                                       |
| `identify`  | which local socket a query came out of                                |
| `relay`     | the users whose lookups are passed through unjudged                   |
| `upstream`  | the daemon's own records                                              |
| `addr`, `text`, `wire`, `limits`, `protocol` | addresses, text, integers on the wire, bounds and messages |

`app/` is the daemon around it: sockets, `/proc`, the user database, the
configuration file, JSON and the NSS glue.

The interpreter panics on a few expressions, such as number literals that are
out of range. The documented part of the language (the four variables,
`blocked_by`, the string methods, comparisons and logical operators) has none
of them: `cel::is_documented` recognises it, and each function that compiles or
evaluates rules has a `_checked` sibling that works on such rules only.

What plain expressions mean (truth values, comparisons, `blocked_by`,
`startsWith`, `endsWith`, `contains`, `&&`, `||`, `!` and brackets) is stated in
`plain::holds`, and the laws of `policy` say what rules made of them match. What
other expressions yield is left to the interpreter.
