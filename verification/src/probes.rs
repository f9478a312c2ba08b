//! The commands that a remote machine is asked to run.
use vstd::prelude::*;

verus! {

/// Prints the load of a Unix machine, one value to the line.
pub const REMOTE_SYSTEM_PROBE: &'static str = r#"sh -lc '
os=$(uname -s 2>/dev/null || echo unknown)
LC_ALL=C
export LC_ALL

if [ "$os" = "Linux" ] && [ -r /proc/stat ]; then
  cpu_stat() { awk '"'"'/^cpu / { total = ($2+$3+$4+$5+$6+$7+$8); printf "%.0f %.0f\n", total, $5 }'"'"' /proc/stat 2>/dev/null; }
  net_stat() { awk -F"[: ]+" '"'"'/:/ && $1!="Inter" && $1!="face" { rx += $3; tx += $11 } END { printf "%.0f %.0f\n", rx+0, tx+0 }'"'"' /proc/net/dev 2>/dev/null; }

  read cpu_total_1 cpu_idle_1 <<EOF
$(cpu_stat)
EOF
  read net_rx_1 net_tx_1 <<EOF
$(net_stat)
EOF
  sleep 1
  read cpu_total_2 cpu_idle_2 <<EOF
$(cpu_stat)
EOF
  read net_rx_2 net_tx_2 <<EOF
$(net_stat)
EOF

  cpu_total_1=${cpu_total_1:-0}
  cpu_idle_1=${cpu_idle_1:-0}
  cpu_total_2=${cpu_total_2:-0}
  cpu_idle_2=${cpu_idle_2:-0}
  net_rx_1=${net_rx_1:-0}
  net_tx_1=${net_tx_1:-0}
  net_rx_2=${net_rx_2:-0}
  net_tx_2=${net_tx_2:-0}
  cpu_delta=$((cpu_total_2 - cpu_total_1))
  idle_delta=$((cpu_idle_2 - cpu_idle_1))

  # metrics normalization
  cpu_percent=$(awk -v total="$cpu_delta" -v idle="$idle_delta" '"'"'BEGIN {
    if (total <= 0) {
      print "0.00"
    } else {
      usage = ((total-idle)/total)*100
      if (usage < 0) usage = 0
      if (usage > 100) usage = 100
      printf "%.2f", usage
    }
  }'"'"')
  mem_available=$(awk '"'"'
    /^MemTotal:/ { total = $2 * 1024 }
    /^MemAvailable:/ { available = $2 * 1024; has_available = 1 }
    /^MemFree:/ { free = $2 * 1024 }
    /^Buffers:/ { buffers = $2 * 1024 }
    /^Cached:/ { cached = $2 * 1024 }
    /^SReclaimable:/ { reclaimable = $2 * 1024 }
    /^Shmem:/ { shmem = $2 * 1024 }
    END {
      if (!has_available) available = free + buffers + cached + reclaimable - shmem
      if (available < 0) available = 0
      if (total > 0 && available > total) available = total
      printf "%.0f\n", available
    }
  '"'"' /proc/meminfo 2>/dev/null)
  mem_total=$(awk '"'"'/^MemTotal:/ {printf "%.0f\n", $2 * 1024; exit}'"'"' /proc/meminfo 2>/dev/null)
  swap_total=$(awk '"'"'/^SwapTotal:/ {printf "%.0f\n", $2 * 1024; exit}'"'"' /proc/meminfo 2>/dev/null)
  swap_free=$(awk '"'"'/^SwapFree:/ {printf "%.0f\n", $2 * 1024; exit}'"'"' /proc/meminfo 2>/dev/null)
  mem_used=$(( ${mem_total:-0} - ${mem_available:-0} ))
  [ "$mem_used" -lt 0 ] && mem_used=0
  swap_used=$(( ${swap_total:-0} - ${swap_free:-0} ))
  [ "$swap_used" -lt 0 ] && swap_used=0
  net_rx=$(( ${net_rx_2:-0} - ${net_rx_1:-0} ))
  [ "$net_rx" -lt 0 ] && net_rx=0
  net_tx=$(( ${net_tx_2:-0} - ${net_tx_1:-0} ))
  [ "$net_tx" -lt 0 ] && net_tx=0
  echo "CPU_PERCENT=${cpu_percent:-0.00}"
  echo "MEM_TOTAL=${mem_total:-0}"
  echo "MEM_USED=$mem_used"
  echo "SWAP_TOTAL=${swap_total:-0}"
  echo "SWAP_USED=$swap_used"
  echo "NET_RX=$net_rx"
  echo "NET_TX=$net_tx"
  LC_ALL=C df -kP 2>/dev/null | awk "NR > 1 && \$1 !~ /^(tmpfs|devtmpfs|ramfs|overlay|aufs)\$/ { printf \"DISK=%s\t%.0f\t%.0f\n\", \$6, \$4 * 1024, \$2 * 1024 }" | head -n 6
  exit 0
fi

if [ "$os" = "Darwin" ]; then
  net_stat() { netstat -ibn 2>/dev/null | awk '"'"'NR > 1 && $7 ~ /^[0-9]+$/ && $10 ~ /^[0-9]+$/ { rx += $7; tx += $10 } END { print rx+0, tx+0 }'"'"'; }

  read net_rx_1 net_tx_1 <<EOF
$(net_stat)
EOF
  sleep 1
  read net_rx_2 net_tx_2 <<EOF
$(net_stat)
EOF

  cpu_percent=$(top -l 2 -n 0 -s 1 2>/dev/null | awk -F"[:,% ]+" '"'"'/CPU usage:/ { user=$3; sys=$5 } END { if (user == "" && sys == "") print "0.00"; else printf "%.2f", user + sys }'"'"')
  mem_total=$(sysctl -n hw.memsize 2>/dev/null || echo 0)
  pagesize=$(sysctl -n hw.pagesize 2>/dev/null || echo 4096)
  vm_output=$(vm_stat 2>/dev/null)
  pages_active=$(printf "%s\n" "$vm_output" | awk '"'"'/Pages active/ { gsub("\\.","",$3); print $3+0 }'"'"')
  pages_wired=$(printf "%s\n" "$vm_output" | awk '"'"'/Pages wired down/ { gsub("\\.","",$4); print $4+0 }'"'"')
  pages_compressed=$(printf "%s\n" "$vm_output" | awk '"'"'/Pages occupied by compressor/ { gsub("\\.","",$5); print $5+0 }'"'"')
  pages_speculative=$(printf "%s\n" "$vm_output" | awk '"'"'/Pages speculative/ { gsub("\\.","",$3); print $3+0 }'"'"')
  mem_used=$(( (${pages_active:-0} + ${pages_wired:-0} + ${pages_compressed:-0} + ${pages_speculative:-0}) * ${pagesize:-4096} ))
  swap_line=$(sysctl vm.swapusage 2>/dev/null || true)
  swap_used=$(printf "%s\n" "$swap_line" | awk -F"[= ,]+" '"'"'
    function mult(unit) { return unit=="K"?1024:(unit=="M"?1048576:(unit=="G"?1073741824:(unit=="T"?1099511627776:1))) }
    /used/ { value=$4; unit=substr(value, length(value), 1); sub(/[A-Za-z]+$/, "", value); printf "%.0f", value * mult(unit) }'"'"')
  swap_total=$(printf "%s\n" "$swap_line" | awk -F"[= ,]+" '"'"'
    function mult(unit) { return unit=="K"?1024:(unit=="M"?1048576:(unit=="G"?1073741824:(unit=="T"?1099511627776:1))) }
    /used/ && /free/ { used=$4; free=$8; unit1=substr(used, length(used), 1); unit2=substr(free, length(free), 1); sub(/[A-Za-z]+$/, "", used); sub(/[A-Za-z]+$/, "", free); printf "%.0f", (used * mult(unit1)) + (free * mult(unit2)) }'"'"')

  echo "CPU_PERCENT=${cpu_percent:-0.00}"
  echo "MEM_TOTAL=${mem_total:-0}"
  echo "MEM_USED=${mem_used:-0}"
  echo "SWAP_TOTAL=${swap_total:-0}"
  echo "SWAP_USED=${swap_used:-0}"
  echo "NET_RX=$(( ${net_rx_2:-0} - ${net_rx_1:-0} ))"
  echo "NET_TX=$(( ${net_tx_2:-0} - ${net_tx_1:-0} ))"
  df -kP 2>/dev/null | awk "NR > 1 && \$1 !~ /^(devfs|tmpfs|devtmpfs|ramfs|overlay|aufs)\$/ { printf \"DISK=%s\t%s\t%s\n\", \$6, \$4 * 1024, \$2 * 1024 }" | head -n 6
  exit 0
fi

echo "unsupported Unix remote operating system: $os" >&2
exit 2
'"#;

/// Prints the processes of a Unix machine, one to the line.
pub const REMOTE_PROCESS_PROBE: &'static str = r#"sh -lc '
os=$(uname -s 2>/dev/null || echo unknown)
LC_ALL=C
export LC_ALL

if [ "$os" = "Linux" ] && [ -r /proc/stat ]; then
  before=$(mktemp "${TMPDIR:-/tmp}/ashell-process-before.XXXXXX") || exit 1
  after=$(mktemp "${TMPDIR:-/tmp}/ashell-process-after.XXXXXX") || { rm -f "$before"; exit 1; }
  trap '"'"'rm -f "$before" "$after"'"'"' EXIT HUP INT TERM
  hz=$(getconf CLK_TCK 2>/dev/null || echo 100)
  page_size=$(getconf PAGESIZE 2>/dev/null || echo 4096)

  capture_processes() {
    for process_stat in /proc/[0-9]*/stat; do
      [ -r "$process_stat" ] || continue
      process_pid=${process_stat#/proc/}
      process_pid=${process_pid%/stat}
      process_line=$(cat "$process_stat" 2>/dev/null) || continue
      process_rest=${process_line##*) }
      set -- $process_rest
      [ "$#" -ge 22 ] || continue
      process_ticks=$((${12} + ${13}))
      process_start=${20}
      process_rss_pages=${22}
      [ "$process_rss_pages" -ge 0 ] 2>/dev/null || process_rss_pages=0
      process_memory=$((process_rss_pages * page_size))
      process_user=$(stat -c %U "/proc/$process_pid" 2>/dev/null || echo "-")
      process_command=$(tr '"'"'\000\t\r\n'"'"' '"'"'    '"'"' < "/proc/$process_pid/cmdline" 2>/dev/null)
      if [ -z "$process_command" ]; then
        process_command=$(tr '"'"'\t\r\n'"'"' '"'"'   '"'"' < "/proc/$process_pid/comm" 2>/dev/null)
      fi
      [ -n "$process_command" ] || process_command="[$process_pid]"
      printf '"'"'%s\t%s\t%s\t%s\t%s\t%s\n'"'"' "$process_pid" "$process_user" "$process_ticks" "$process_start" "$process_memory" "$process_command"
    done
  }

  capture_processes > "$before"
  sleep 1
  capture_processes > "$after"
  awk -F '"'"'\t'"'"' -v hz="$hz" '"'"'
    NR == FNR { ticks[$1] = $3; starts[$1] = $4; next }
    {
      delta = ($1 in ticks && starts[$1] == $4) ? ($3 - ticks[$1]) : 0;
      cpu = (delta > 0 && hz > 0) ? delta * 100 / hz : 0;
      printf "PROCESS\t%s\t%s\t%.2f\t%s\t%s\n", $1, $2, cpu, $5, $6;
    }
  '"'"' "$before" "$after"
  exit 0
fi

if [ "$os" = "Darwin" ]; then
  top_output=$(mktemp "${TMPDIR:-/tmp}/ashell-process-top.XXXXXX") || exit 1
  trap '"'"'rm -f "$top_output"'"'"' EXIT HUP INT TERM
  LC_ALL=C top -l 2 -s 1 -n 10000 -stats pid,cpu > "$top_output" 2>/dev/null || exit 1
  LC_ALL=C ps -axo pid=,user=,rss=,command= 2>/dev/null | awk -v top_output="$top_output" '"'"'
    BEGIN {
      sample = 0;
      while ((getline line < top_output) > 0) {
        count = split(line, fields, /[[:space:]]+/);
        start = fields[1] == "" ? 2 : 1;
        if (fields[start] == "PID") { sample++; continue; }
        if (sample == 2 && fields[start] ~ /^[0-9]+$/) {
          value = fields[start + 1];
          gsub(/%/, "", value);
          cpu[fields[start]] = value + 0;
        }
      }
      close(top_output);
    }
    {
      pid = $1; user = $2; memory = $3 * 1024;
      $1 = $2 = $3 = "";
      sub(/^[[:space:]]+/, "");
      printf "PROCESS\t%s\t%s\t%.2f\t%.0f\t%s\n", pid, user, cpu[pid] + 0, memory, $0;
    }
  '"'"'
  exit 0
fi

echo "unsupported Unix remote operating system: $os" >&2
exit 2
'"#;

/// Prints the open ports of a Unix machine, one to the line.
pub const REMOTE_PORT_PROBE: &'static str = r#"sh -lc '
LC_ALL=C
export LC_ALL
if command -v lsof >/dev/null 2>&1; then
  lsof_output=$(
  lsof -nP -iTCP -sTCP:LISTEN 2>/dev/null | awk '"'"'
    NR > 1 && $2 ~ /^[0-9]+$/ {
      endpoint = $9;
      state = $10;
      gsub(/[()]/, "", state);
      if (endpoint !~ /:[0-9]+$/) next;
      port = endpoint;
      sub(/^.*:/, "", port);
      address = endpoint;
      sub(/:[^:]*$/, "", address);
      if (address == "") address = "*";
      if (state == "") state = "LISTEN";
      printf "PORT\tTCP\t%s\t%s\t%s\t%s\t%s\n", address, port, state, $2, $1;
    }
  '"'"'
  lsof -nP -iUDP 2>/dev/null | awk '"'"'
    NR > 1 && $2 ~ /^[0-9]+$/ {
      endpoint = $9;
      if (endpoint !~ /:[0-9]+$/) next;
      port = endpoint;
      sub(/^.*:/, "", port);
      address = endpoint;
      sub(/:[^:]*$/, "", address);
      if (address == "") address = "*";
      printf "PORT\tUDP\t%s\t%s\tUNCONN\t%s\t%s\n", address, port, $2, $1;
    }
  '"'"'
  )
  if [ -n "$lsof_output" ]; then
    printf "%s\n" "$lsof_output"
    exit 0
  fi
fi

if command -v ss >/dev/null 2>&1; then
  ss_output=$(ss -lntup 2>/dev/null | awk '"'"'
    NF >= 5 {
      protocol = $1;
      state = $2;
      endpoint = $5;
      if (endpoint !~ /:[0-9]+$/) next;
      port = endpoint;
      sub(/^.*:/, "", port);
      address = endpoint;
      sub(/:[^:]*$/, "", address);
      pid = "-";
      process = "-";
      for (i = 6; i <= NF; i++) {
        token = $i;
        if (token ~ /users:/) {
          name = token;
          sub(/^.*\(\("/, "", name);
          sub(/".*$/, "", name);
          if (name != "") process = name;
          if (match(token, /pid=[0-9]+/)) {
            pid = substr(token, RSTART + 4, RLENGTH - 4);
          }
        }
      }
      printf "PORT\t%s\t%s\t%s\t%s\t%s\t%s\n", protocol, address, port, state, pid, process;
    }
  '"'"'
  )
  if [ -n "$ss_output" ]; then
    printf "%s\n" "$ss_output"
    exit 0
  fi
fi

if command -v netstat >/dev/null 2>&1; then
  netstat -an 2>/dev/null | awk '"'"'
    NR > 1 && NF >= 4 {
      protocol = $1;
      endpoint = $4;
      state = protocol ~ /^udp/i ? "UNCONN" : "LISTEN";
      if (endpoint !~ /:[0-9]+$/ && endpoint !~ /\.[0-9]+$/) next;
      port = endpoint;
      sub(/^.*[:.]/, "", port);
      address = endpoint;
      sub(/[:.][^:.]*$/, "", address);
      if (address == "") address = "*";
      if (protocol !~ /^udp/i && $NF != "LISTEN" && $NF != "LISTENING") next;
      printf "PORT\t%s\t%s\t%s\t%s\t-\t-\n", protocol, address, port, state;
    }
  '"'"'
  exit 0
fi

echo "no supported remote port utility found" >&2
exit 2
'"#;

/// Prints the load of a Windows machine, one value to the line.
pub const REMOTE_WINDOWS_SYSTEM_PROBE: &'static str = r#"$ErrorActionPreference = 'Stop'
[Console]::OutputEncoding = [System.Text.Encoding]::UTF8
$cpu = (Get-CimInstance Win32_Processor | Measure-Object -Property LoadPercentage -Average).Average
$os = Get-CimInstance Win32_OperatingSystem
$memTotal = [uint64]$os.TotalVisibleMemorySize * 1024
$memFree = [uint64]$os.FreePhysicalMemory * 1024
$swapTotal = [uint64]$os.TotalVirtualMemorySize * 1024 - $memTotal
$swapFree = [uint64]$os.FreeVirtualMemory * 1024 - $memFree
$network = Get-CimInstance Win32_PerfFormattedData_Tcpip_NetworkInterface
$netRx = ($network | Measure-Object -Property BytesReceivedPersec -Sum).Sum
$netTx = ($network | Measure-Object -Property BytesSentPersec -Sum).Sum
$cpuText = [string]::Format([Globalization.CultureInfo]::InvariantCulture, "{0:F2}", [double]$cpu)
Write-Output ("CPU_PERCENT={0}" -f $cpuText)
Write-Output ("MEM_TOTAL={0}" -f $memTotal)
Write-Output ("MEM_USED={0}" -f ($memTotal - $memFree))
Write-Output ("SWAP_TOTAL={0}" -f ([Math]::Max(0, $swapTotal)))
Write-Output ("SWAP_USED={0}" -f ([Math]::Max(0, $swapTotal - $swapFree)))
Write-Output ("NET_RX={0}" -f ([uint64]$netRx))
Write-Output ("NET_TX={0}" -f ([uint64]$netTx))
Get-CimInstance Win32_LogicalDisk -Filter "DriveType=3" | ForEach-Object {
  Write-Output ("DISK={0}`t{1}`t{2}" -f $_.DeviceID, [uint64]$_.FreeSpace, [uint64]$_.Size)
}"#;

/// Prints the processes of a Windows machine, one to the line.
pub const REMOTE_WINDOWS_PROCESS_PROBE: &'static str = r#"$ErrorActionPreference = 'Stop'
[Console]::OutputEncoding = [System.Text.Encoding]::UTF8
$before = @{}
Get-Process | ForEach-Object { if ($null -ne $_.CPU) { $before[$_.Id] = [double]$_.CPU } }
Start-Sleep -Seconds 1
Get-Process | ForEach-Object {
  $previous = $before[$_.Id]
  $cpu = if ($null -ne $previous -and $null -ne $_.CPU) { [Math]::Max(0, ([double]$_.CPU - $previous) * 100) } else { 0 }
  $command = $_.ProcessName.Replace("`t", " ").Replace("`r", " ").Replace("`n", " ")
  $cpuText = [string]::Format([Globalization.CultureInfo]::InvariantCulture, "{0:F2}", $cpu)
  Write-Output ("PROCESS`t{0}`t-`t{1}`t{2}`t{3}" -f $_.Id, $cpuText, [uint64]$_.WorkingSet64, $command)
}"#;

/// Prints the open ports of a Windows machine, one to the line.
pub const REMOTE_WINDOWS_PORT_PROBE: &'static str = r#"$ErrorActionPreference = 'Stop'
[Console]::OutputEncoding = [System.Text.Encoding]::UTF8
$tab = [char]9
$processNames = @{}
Get-Process | ForEach-Object { $processNames[[int]$_.Id] = $_.ProcessName }
@(Get-NetTCPConnection -State Listen -ErrorAction SilentlyContinue) | ForEach-Object {
  $ownerPid = [int]$_.OwningProcess
  $processName = if ($processNames.ContainsKey($ownerPid)) { $processNames[$ownerPid] } else { '-' }
  Write-Output ("PORT{0}TCP{0}{1}{0}{2}{0}LISTEN{0}{3}{0}{4}" -f $tab, $_.LocalAddress, $_.LocalPort, $ownerPid, $processName)
}
@(Get-NetUDPEndpoint -ErrorAction SilentlyContinue) | ForEach-Object {
  $ownerPid = [int]$_.OwningProcess
  $processName = if ($processNames.ContainsKey($ownerPid)) { $processNames[$ownerPid] } else { '-' }
  Write-Output ("PORT{0}UDP{0}{1}{0}{2}{0}UNCONN{0}{3}{0}{4}" -f $tab, $_.LocalAddress, $_.LocalPort, $ownerPid, $processName)
}"#;

} // verus!
