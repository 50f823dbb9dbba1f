# iam_recon

Analysis of AWS IAM for privilege escalation: policy evaluation, a graph of
principals and the edges by which one principal can act as another, and the
findings drawn from that graph.

- `src/` is the library, written in Verus: each public function states what it
  returns in its contract, and the laws that relate several functions are
  public proof functions (named `law_*`).
  - `policy_eval/`: wildcard and condition matching, statement matching,
    request contexts, resource policies and the authorization decision.
  - `edges/`: the edge checkers (IAM, STS, EC2, SSM, Auto Scaling, SageMaker,
    Lambda, CodeBuild, CloudFormation).
  - `gathering/`: building principals, groups and policies from the account
    authorization details; administrators; the policy cache index.
  - `model/`: policies, groups, principals, edges, the graph, findings,
    reports and organizations.
  - `analysis/`, `pathfinding.rs`: findings and escalation-path matching.
  - `cli/`: what the command line shows: colours, report formats,
    completions, policy listing and argument lists.
- `app/` is the command line around it: AWS access, files and printing.
- `tests/` runs the library on concrete values.
