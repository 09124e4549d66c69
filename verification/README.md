# roa

Rancher on AWS: a command line tool that provisions Rancher instances on EC2, terminates them, lists
them and reports on their health. The rules behind it are a library whose behaviour is stated in
contracts and proved by Verus; the calls to AWS, `ssh` and the web are ordinary Rust around it.

## `src/`

| Module | What it holds |
|--------|---------------|
| `text`, `number`, `json`, `clock` | Text, numerals, JSON documents and points in time |
| `substitution`, `user_data` | Templates, and the scripts that an instance runs when it first boots |
| `versions`, `repo`, `ports`, `cidr` | Versions and channels, chart repositories, port mappings, address ranges |
| `network`, `provision`, `terminate`, `instance` | Names, security group rules, launch requests, cleanup, the manifest |
| `poll` | Asking again until something has settled |
| `sections`, `on_box`, `cluster`, `channels`, `charts`, `snapshot` | The checks of the health report, each from what was found out |
| `report`, `maintain` | The health report as a whole |

What is proved of several functions together stands beside them as public proof functions: that every
script hardens sshd, that a Plan never tracks a floating channel, that no security group repeats a
port, that striking an instance undoes recording it, and more.

## `app/`

`main`, the command line, the manifest on disk, and the calls to EC2, Route 53, `ssh` and HTTP. It
asks the library what to do, does it, and hands back what came of it.
