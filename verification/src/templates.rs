//! The scaffolds `new` and `brief` fill for each doc type.

use vstd::prelude::*;

verus! {

pub const ADR_TEMPLATE: &'static str = "---\ntype: ADR\ntitle: <Short decision title>\ndescription: <One sentence — the decision and its scope.>\nowner: <who answers for this decision>\nstatus: Proposed\nsupersedes:\nsuperseded_by:\ntimestamp: <ISO 8601 datetime>\n---\n\n# NNNN. <Short decision title>\n\n## Context\n\n<The forces that make a decision necessary.>\n\n## Decision\n\nWe will <the choice>.\n\n## Consequences\n\n- <What this makes easier, and the trade-offs accepted.>\n\n## Verification\n\n**Implementation impact:** <the paths this decision governs>\n\n**Verification criteria:**\n- <a checkable criterion>\n\n# References\n\n[1] [<source>](<url>)\n";

pub const PRD_TEMPLATE: &'static str = "---\ntype: PRD\ntitle: <Product requirement title>\ndescription: <One sentence — the problem and who has it.>\nstatus: Draft\nsupersedes:\nsuperseded_by:\ntimestamp: <ISO 8601 datetime>\n---\n\n# NNNN. <Product requirement title>\n\n## Problem / Motivation\n\n<Who asked, and why now.>\n\n## Goals\n\n- <goal>\n\n## Non-goals\n\n- <out of scope>\n\n## Requirements\n\n- FR-1: <requirement>\n\n## Non-functional requirements\n\n| Id | Quality attribute | Scenario | Instrument |\n| --- | --- | --- | --- |\n| NFR-1 | <attribute> | <scenario> | <instrument> |\n\n## Acceptance criteria\n\n- <criterion>\n\n## Success metrics\n\n- <metric>\n\n## Behavior (BDRs)\n\n- <link to a BDR>\n\n## Open questions\n\n- <question>\n\n## Decision log\n\n- <decision>\n\n## Related\n\n- <link>\n";

pub const ISSUE_TEMPLATE: &'static str = "---\ntype: Issue\ntitle: <Issue title>\ndescription: <One sentence.>\nstatus: open\ntimestamp: <ISO 8601 datetime>\n---\n\n## <Issue title>\n\n<What is wrong or missing, and why it matters.>\n\n### Scope\n\n<What the change touches.>\n\n### Acceptance\n\n- <observable outcome>\n\n### Plan\n\n1. <step>\n";

pub const RESEARCH_TEMPLATE: &'static str = "---\ntype: Research\ntitle: <Research title>\ndescription: <One sentence — the question and the answer.>\nstatus: Draft\ntimestamp: <ISO 8601 datetime>\n---\n\n# NNNN. <Research title>\n\n## Question\n\n<One answerable question.>\n\n## Method\n\n<How the answer was found.>\n\n## Findings\n\n<What was found, with sources.>\n\n## Implications\n\n<What follows for the product.>\n\n## Open Questions\n\n- <question>\n\n# References\n\n[1] [<source>](<url>)\n";

pub const VIEW_TEMPLATE: &'static str = "---\ntype: Architecture View\ntitle: <View title>\ndescription: <One sentence — what this view shows.>\nkind: <context | container | component | flow | sequence | state | data-model | deployment>\ntimestamp: <ISO 8601 datetime>\n---\n\n# <View title>\n\n```mermaid\nflowchart LR\n  A[<element>] --> B[<element>]\n```\n\n## Notes\n\n<What the diagram leaves out.>\n";

pub const CONSTITUTION_TEMPLATE: &'static str = "---\ntype: Constitution\ntitle: <Product name> Constitution\ndescription: <One sentence — what the product is and for whom.>\nstatus: Draft\ntimestamp: <ISO 8601 datetime>\n---\n\n# Product Constitution\n\n## Product\n\n<What the product is, who it serves, and the problem it solves.>\n\n## Scope Boundaries\n\n- <Capability or domain the product owns>\n- <Capability or domain it deliberately leaves to others>\n\n## Non-negotiables\n\n1. <Non-negotiable 1>\n2. <Non-negotiable 2>\n\n## Domain Model\n\n```mermaid\nerDiagram\n  ENTITY_A ||--o{ ENTITY_B : owns\n```\n\n## Amendments\n\n<!-- Append amendments here, newest last, each with its date and rationale. -->\n";

} // verus!
